use vstd::prelude::*;
use crate::text::{
    ascii_lower, byte_len, chars_of, decimal, push_decimal, lemma_byte_len_step, lower_chars, matches_at, occurs_at,
    string_from_chars, to_lower_char, trim, trim_chars, utf8_width,
};

verus! {

/// A place where the search query was found in the formatted text: a line index and the
/// byte offset of the hit within that line.
#[derive(Clone, Copy, Debug, PartialEq, Eq)]
pub struct TextMatch {
    pub line: usize,
    pub column: usize,
}

/// A hit as a pair of integers.
pub open spec fn match_pair(m: TextMatch) -> (int, int) {
    (m.line as int, m.column as int)
}

/// The hits of a vector of matches as pairs.
pub open spec fn match_pairs(ms: Seq<TextMatch>) -> Seq<(int, int)> {
    ms.map_values(|m: TextMatch| match_pair(m))
}

/// The character sequences of a sequence of strings.
pub open spec fn string_views(v: Seq<String>) -> Seq<Seq<char>> {
    v.map_values(|s: String| s@)
}

/// The search query of a raw search field: trimmed, and ASCII-lowercased, or nothing when
/// only whitespace is left.
pub open spec fn normalized(query: Seq<char>) -> Option<Seq<char>> {
    if trim(query).len() == 0 {
        None
    } else {
        Some(ascii_lower(trim(query)))
    }
}

/// The string form of an optional character sequence.
pub open spec fn opt_view(o: Option<String>) -> Option<Seq<char>> {
    match o {
        Some(s) => Some(s@),
        None => None,
    }
}

/// Trims the query and lowercases its ASCII letters; `None` when nothing is left.
pub fn normalized_query(query: &str) -> (out: Option<String>)
    ensures
        opt_view(out) == normalized(query@),
{
    let trimmed = trim_chars(query);
    if trimmed.len() == 0 {
        None
    } else {
        let mut lowered: Vec<char> = Vec::new();
        let mut i: usize = 0;
        while i < trimmed.len()
            invariant
                trimmed@ == trim(query@),
                i <= trimmed@.len(),
                lowered@ == ascii_lower(trimmed@).take(i as int),
            decreases trimmed@.len() - i,
        {
            let c = to_lower_char(trimmed[i]);
            lowered.push(c);
            assert(lowered@ =~= ascii_lower(trimmed@).take(i + 1));
            i += 1;
        }
        assert(lowered@ =~= ascii_lower(trimmed@));
        Some(string_from_chars(lowered.as_slice()))
    }
}

/// One step through a ring of `total` positions from `cur`: forwards wraps from the last to
/// the first, backwards from the first to the last.
pub open spec fn ring_step(cur: int, total: int, backwards: bool) -> int {
    if backwards {
        if cur == 0 {
            total - 1
        } else {
            cur - 1
        }
    } else {
        (cur + 1) % total
    }
}

/// Steps a cursor through a ring of `total` positions, forwards or backwards.
pub fn next_index(current: usize, total: usize, backwards: bool) -> (next: usize)
    requires
        backwards && current == 0 ==> total > 0,
        !backwards ==> total > 0 && current < usize::MAX,
    ensures
        next == ring_step(current as int, total as int, backwards),
{
    if backwards {
        if current == 0 {
            total - 1
        } else {
            current - 1
        }
    } else {
        (current + 1) % total
    }
}

} // verus!

verus! {

/// The hits of `q` in line number `l` at character positions from `i` on: each position where
/// `q` stands in the ASCII-lowercased line, with the byte offset of that position.
pub open spec fn line_hits(line: Seq<char>, q: Seq<char>, l: int, i: int) -> Seq<(int, int)>
    decreases line.len() - i,
{
    if i < 0 || i >= line.len() || i + q.len() > line.len() {
        seq![]
    } else {
        (if occurs_at(ascii_lower(line), q, i) {
            seq![(l, byte_len(line.take(i)) as int)]
        } else {
            seq![]
        }) + line_hits(line, q, l, i + 1)
    }
}

/// The hits of `q` in all lines, line by line, each line's in increasing order.
pub open spec fn text_hits(lines: Seq<Seq<char>>, q: Seq<char>) -> Seq<(int, int)>
    decreases lines.len(),
{
    if lines.len() == 0 {
        seq![]
    } else {
        text_hits(lines.drop_last(), q) + line_hits(lines.last(), q, lines.len() - 1, 0)
    }
}

/// The inputs on which the search of the formatted lines runs to its end: a non-empty query
/// (an empty one never stops matching), whose first character, where it is found, is one
/// byte long (the search steps one byte past each hit).
pub open spec fn text_search_ok(lines: Seq<Seq<char>>, q: Seq<char>) -> bool {
    lines.len() == 0 || (q.len() > 0 && ((q[0] as u32) < 0x80 || text_hits(lines, q).len() == 0))
}

/// Every place where the lowercased query stands in a lowercased line, in line order and,
/// within a line, in position order; overlapping hits included.
pub fn collect_text_matches(lines: &[String], query_lc: &str) -> (matches: Vec<TextMatch>)
    requires
        text_search_ok(string_views(lines@), query_lc@),
    ensures
        match_pairs(matches@) == text_hits(string_views(lines@), query_lc@),
{
    find_text_hits(lines, query_lc)
}

/// Whether the search of `lines` for `query_lc` runs to its end (see `text_search_ok`).
pub fn text_search_runs(lines: &[String], query_lc: &str) -> (ok: bool)
    ensures
        ok == text_search_ok(string_views(lines@), query_lc@),
{
    if lines.len() == 0 {
        return true;
    }
    let q = chars_of(query_lc);
    if q.len() == 0 {
        return false;
    }
    if (q[0] as u32) < 0x80 {
        return true;
    }
    let hits = find_text_hits(lines, query_lc);
    hits.len() == 0
}

/// The hits of `query_lc` in `lines`, for any query.
pub(crate) fn find_text_hits(lines: &[String], query_lc: &str) -> (matches: Vec<TextMatch>)
    ensures
        match_pairs(matches@) == text_hits(string_views(lines@), query_lc@),
{
    let ghost all = string_views(lines@);
    let q = chars_of(query_lc);
    let mut matches: Vec<TextMatch> = Vec::new();
    let mut li: usize = 0;
    assert(all.take(0) =~= Seq::<Seq<char>>::empty());
    while li < lines.len()
        invariant
            all == string_views(lines@),
            q@ == query_lc@,
            li <= lines@.len(),
            match_pairs(matches@) == text_hits(all.take(li as int), q@),
        decreases lines@.len() - li,
    {
        let line: &str = lines[li].as_str();
        let ghost lv = line@;
        assert(lv == all[li as int]);
        let nbytes = line.as_bytes().len();
        assert(nbytes == byte_len(lv));
        let raw = chars_of(line);
        let lc = lower_chars(line);
        let ghost base = match_pairs(matches@);
        let mut i: usize = 0;
        let mut offset: usize = 0;
        assert(lv.take(0) =~= Seq::<char>::empty());
        assert(byte_len(lv.take(0)) == 0) by {
            assert(vstd::utf8::encode_utf8(lv.take(0)) =~= Seq::<u8>::empty());
        }
        while i < raw.len() && q.len() <= raw.len() - i
            invariant
                raw@ == lv,
                lc@ == ascii_lower(lv),
                q@ == query_lc@,
                nbytes == byte_len(lv),
                i <= raw@.len(),
                offset == byte_len(lv.take(i as int)),
                match_pairs(matches@) + line_hits(lv, q@, li as int, i as int) == base + line_hits(
                    lv,
                    q@,
                    li as int,
                    0,
                ),
            decreases raw@.len() - i,
        {
            proof {
                lemma_byte_len_step(lv, i as int);
            }
            let ghost before = match_pairs(matches@);
            if matches_at(lc.as_slice(), q.as_slice(), i) {
                matches.push(TextMatch { line: li, column: offset });
                assert(match_pairs(matches@) =~= before + seq![(li as int, offset as int)]);
            } else {
                assert(match_pairs(matches@) =~= before);
            }
            proof {
                if i + 1 < lv.len() {
                    lemma_byte_len_step(lv, i + 1);
                } else {
                    assert(lv.take(i + 1) =~= lv);
                }
            }
            offset = offset + utf8_width(raw[i]);
            i += 1;
        }
        assert(line_hits(lv, q@, li as int, i as int) == Seq::<(int, int)>::empty());
        assert(match_pairs(matches@) =~= base + line_hits(lv, q@, li as int, 0));
        assert(all.take(li + 1).drop_last() =~= all.take(li as int));
        li += 1;
    }
    assert(all.take(lines@.len() as int) =~= all);
    matches
}

} // verus!

verus! {

/// The pieces of `s` between its line feeds; there is always at least one.
pub open spec fn nl_pieces(s: Seq<char>) -> Seq<Seq<char>>
    decreases s.len(),
{
    if s.len() == 0 {
        seq![Seq::<char>::empty()]
    } else {
        let p = nl_pieces(s.drop_last());
        if s.last() == '\n' {
            p.push(Seq::<char>::empty())
        } else {
            p.update(p.len() - 1, p.last().push(s.last()))
        }
    }
}

/// A line that ended in a line feed, without the carriage return before that feed.
pub open spec fn strip_cr(l: Seq<char>) -> Seq<char> {
    if l.len() > 0 && l.last() == '\r' {
        l.drop_last()
    } else {
        l
    }
}

/// The lines of `s` as `str::lines` gives them: split at each `\n`, a `\r` right before a
/// `\n` dropped, and no last empty line after a final `\n`.
pub open spec fn lines_of(s: Seq<char>) -> Seq<Seq<char>> {
    let p = nl_pieces(s);
    let body = p.drop_last().map_values(|l: Seq<char>| strip_cr(l));
    if p.last().len() == 0 {
        body
    } else {
        body.push(p.last())
    }
}

proof fn lemma_nl_pieces_nonempty(s: Seq<char>)
    ensures
        nl_pieces(s).len() >= 1,
    decreases s.len(),
{
    if s.len() > 0 {
        lemma_nl_pieces_nonempty(s.drop_last());
    }
}

/// The lines of the formatted text.
pub fn split_lines(text: &str) -> (lines: Vec<String>)
    ensures
        string_views(lines@) == lines_of(text@),
{
    let cs = chars_of(text);
    let mut lines: Vec<String> = Vec::new();
    let mut cur: Vec<char> = Vec::new();
    let mut i: usize = 0;
    assert(text@.take(0) =~= Seq::<char>::empty());
    while i < cs.len()
        invariant
            cs@ == text@,
            i <= cs@.len(),
            nl_pieces(text@.take(i as int)).len() >= 1,
            string_views(lines@) == nl_pieces(text@.take(i as int)).drop_last().map_values(
                |l: Seq<char>| strip_cr(l),
            ),
            cur@ == nl_pieces(text@.take(i as int)).last(),
        decreases cs@.len() - i,
    {
        let c = cs[i];
        let ghost p = nl_pieces(text@.take(i as int));
        assert(text@.take(i + 1).drop_last() =~= text@.take(i as int));
        assert(text@.take(i + 1).last() == c);
        if c == '\n' {
            let n = cur.len();
            let line = if n > 0 && cur[n - 1] == '\r' {
                string_from_chars(&cur.as_slice()[0..n - 1])
            } else {
                string_from_chars(cur.as_slice())
            };
            proof {
                if n > 0 && cur@[n - 1] == '\r' {
                    assert(cur@.subrange(0, n - 1) =~= strip_cr(cur@));
                }
            }
            assert(line@ == strip_cr(p.last()));
            let ghost before = string_views(lines@);
            lines.push(line);
            cur = Vec::new();
            assert(string_views(lines@) =~= before.push(strip_cr(p.last())));
            assert(nl_pieces(text@.take(i + 1)) == p.push(Seq::<char>::empty()));
            assert(p.push(Seq::<char>::empty()).drop_last() =~= p);
            assert(p.map_values(|l: Seq<char>| strip_cr(l)) =~= p.drop_last().map_values(
                |l: Seq<char>| strip_cr(l),
            ).push(strip_cr(p.last())));
            assert(string_views(lines@) =~= nl_pieces(text@.take(i + 1)).drop_last().map_values(
                |l: Seq<char>| strip_cr(l),
            ));
        } else {
            cur.push(c);
            let ghost p2 = p.update(p.len() - 1, p.last().push(c));
            assert(nl_pieces(text@.take(i + 1)) == p2);
            assert(p2.drop_last() =~= p.drop_last());
        }
        i += 1;
    }
    assert(text@.take(cs@.len() as int) =~= text@);
    if cur.len() > 0 {
        let line = string_from_chars(cur.as_slice());
        let ghost before = string_views(lines@);
        lines.push(line);
        assert(string_views(lines@) =~= before.push(cur@));
    }
    lines
}

/// The preview text cut to at most `max_chars` characters, with a note saying how much was
/// cut.
pub open spec fn truncated_preview(text: Seq<char>, max_chars: nat) -> Seq<char> {
    if text.len() <= max_chars {
        text
    } else {
        text.take(max_chars as int) + "\n\n[Preview truncated: showing "@ + decimal(max_chars)
            + " of "@ + decimal(text.len()) + " characters]"@
    }
}

/// Cuts a preview to at most `max_chars` characters, and says so when it does.
pub fn truncate_for_preview(text: String, max_chars: usize) -> (out: String)
    ensures
        out@ == truncated_preview(text@, max_chars as nat),
{
    let cs = chars_of(text.as_str());
    let total = cs.len();
    if total <= max_chars {
        return text;
    }
    let mut out = string_from_chars(&cs.as_slice()[0..max_chars]);
    out.append("\n\n[Preview truncated: showing ");
    push_decimal(&mut out, max_chars as u128);
    out.append(" of ");
    push_decimal(&mut out, total as u128);
    out.append(" characters]");
    assert(cs@.subrange(0, max_chars as int) =~= text@.take(max_chars as int));
    out
}

} // verus!

verus! {

/// How a piece of a line is shown in the text view.
#[derive(Clone, Copy, Debug, PartialEq, Eq, Structural)]
pub enum SegmentKind {
    /// Text outside any hit.
    Plain,
    /// A hit of the query.
    Hit,
    /// The hit that is the current match.
    ActiveHit,
}

/// A piece of a line of the text view, with the way it is shown.
#[derive(Debug)]
pub struct LineSegment {
    pub text: String,
    pub kind: SegmentKind,
}

/// A segment as its characters and its kind.
pub open spec fn segment_pair(s: LineSegment) -> (Seq<char>, SegmentKind) {
    (s.text@, s.kind)
}

/// The segments of a vector as pairs.
pub open spec fn segment_pairs(v: Seq<LineSegment>) -> Seq<(Seq<char>, SegmentKind)> {
    v.map_values(|s: LineSegment| segment_pair(s))
}

/// The first position at or after `i` where `q` stands in `s`.
pub open spec fn next_occ(s: Seq<char>, q: Seq<char>, i: int) -> Option<int>
    decreases s.len() - i,
{
    if i < 0 || i + q.len() > s.len() {
        None
    } else if occurs_at(s, q, i) {
        Some(i)
    } else if i >= s.len() {
        None
    } else {
        next_occ(s, q, i + 1)
    }
}

/// What `next_occ` finds is the first place at or after `i`.
pub proof fn lemma_next_occ(s: Seq<char>, q: Seq<char>, i: int)
    requires
        0 <= i,
    ensures
        next_occ(s, q, i) matches Some(p) ==> i <= p && occurs_at(s, q, p) && forall|j: int|
            i <= j < p ==> !occurs_at(s, q, j),
        next_occ(s, q, i) is None ==> forall|j: int| i <= j ==> !occurs_at(s, q, j),
    decreases s.len() - i,
{
    if i + q.len() > s.len() {
    } else if occurs_at(s, q, i) {
    } else if i >= s.len() {
        if q.len() == 0 {
            assert(s.subrange(i, i) =~= q);
        }
    } else {
        lemma_next_occ(s, q, i + 1);
    }
}

} // verus!

verus! {

/// The kind of a hit at byte offset `column` of line `l`, given the current match.
pub open spec fn hit_kind(active: Option<TextMatch>, l: int, column: int) -> SegmentKind {
    match active {
        Some(m) => if m.line == l && m.column == column {
            SegmentKind::ActiveHit
        } else {
            SegmentKind::Hit
        },
        None => SegmentKind::Hit,
    }
}

/// The pieces of `line` from character `start` on: plain text between hits, and each hit,
/// found left to right without overlap in the ASCII-lowercased line.
pub open spec fn hit_segments(
    line: Seq<char>,
    q: Seq<char>,
    l: int,
    active: Option<TextMatch>,
    start: int,
) -> Seq<(Seq<char>, SegmentKind)>
    decreases line.len() - start,
{
    if q.len() == 0 || start < 0 || start > line.len() {
        seq![]
    } else {
        match next_occ(ascii_lower(line), q, start) {
            None => if start < line.len() {
                seq![(line.subrange(start, line.len() as int), SegmentKind::Plain)]
            } else {
                seq![]
            },
            Some(p) => {
                proof {
                    lemma_next_occ(ascii_lower(line), q, start);
                }
                (if p > start {
                    seq![(line.subrange(start, p), SegmentKind::Plain)]
                } else {
                    seq![]
                }) + seq![
                    (
                        line.subrange(p, p + q.len()),
                        hit_kind(active, l, byte_len(line.take(p)) as int),
                    ),
                ] + hit_segments(line, q, l, active, p + q.len())
            },
        }
    }
}

/// The pieces of line `l` of the text view: the whole line as plain text when there is no
/// query or the line holds no hit, else its hits and the text between them.
pub open spec fn line_segments_spec(
    line: Seq<char>,
    l: int,
    query: Option<Seq<char>>,
    active: Option<TextMatch>,
    listed: bool,
) -> Seq<(Seq<char>, SegmentKind)> {
    match query {
        Some(q) => if q.len() > 0 && listed {
            hit_segments(line, q, l, active, 0)
        } else {
            seq![(line, SegmentKind::Plain)]
        },
        None => seq![(line, SegmentKind::Plain)],
    }
}

/// A string made of `cs[from..to]`.
fn string_of_range(cs: &Vec<char>, from: usize, to: usize) -> (out: String)
    requires
        from <= to <= cs@.len(),
    ensures
        out@ == cs@.subrange(from as int, to as int),
{
    string_from_chars(&cs.as_slice()[from..to])
}

/// The pieces in which line `line_idx` of the text view is shown.
pub fn line_segments(
    line: &str,
    line_idx: usize,
    query_lc: Option<&str>,
    active_match: Option<TextMatch>,
    match_lines: &[usize],
) -> (segs: Vec<LineSegment>)
    ensures
        segment_pairs(segs@) == line_segments_spec(
            line@,
            line_idx as int,
            match query_lc {
                Some(q) => Some(q@),
                None => None,
            },
            active_match,
            match_lines@.contains(line_idx),
        ),
{
    let raw = chars_of(line);
    let mut segs: Vec<LineSegment> = Vec::new();
    let q_str = match query_lc {
        Some(q) => q,
        None => {
            segs.push(LineSegment { text: string_from_chars(raw.as_slice()), kind: SegmentKind::Plain });
            assert(segment_pairs(segs@) =~= seq![(line@, SegmentKind::Plain)]);
            return segs;
        },
    };
    let q = chars_of(q_str);
    let mut listed = false;
    let mut k: usize = 0;
    while k < match_lines.len()
        invariant
            k <= match_lines@.len(),
            listed == (exists|j: int| 0 <= j < k && match_lines@[j] == line_idx),
        decreases match_lines@.len() - k,
    {
        if match_lines[k] == line_idx {
            listed = true;
        }
        k += 1;
    }
    assert(listed == match_lines@.contains(line_idx));
    if q.len() == 0 || !listed {
        segs.push(LineSegment { text: string_from_chars(raw.as_slice()), kind: SegmentKind::Plain });
        assert(segment_pairs(segs@) =~= seq![(line@, SegmentKind::Plain)]);
        return segs;
    }
    let lc = lower_chars(line);
    let nbytes = line.as_bytes().len();
    let ghost lv = line@;
    let ghost qv = q@;
    let n = raw.len();
    let mut start: usize = 0;
    let mut off: usize = 0;
    assert(lv.take(0) =~= Seq::<char>::empty());
    assert(byte_len(lv.take(0)) == 0) by {
        assert(vstd::utf8::encode_utf8(lv.take(0)) =~= Seq::<u8>::empty());
    }
    assert(segment_pairs(segs@) =~= Seq::<(Seq<char>, SegmentKind)>::empty());
    loop
        invariant
            raw@ == lv,
            lc@ == ascii_lower(lv),
            q@ == qv,
            qv.len() > 0,
            query_lc == Some(q_str),
            q_str@ == qv,
            match_lines@.contains(line_idx),
            lv == line@,
            n == lv.len(),
            nbytes == byte_len(lv),
            start <= n,
            off == byte_len(lv.take(start as int)),
            segment_pairs(segs@) + hit_segments(lv, qv, line_idx as int, active_match, start as int)
                == hit_segments(lv, qv, line_idx as int, active_match, 0),
        decreases n - start,
    {
        let mut i: usize = start;
        let mut off_i: usize = off;
        while i < n && q.len() <= n - i && !matches_at(lc.as_slice(), q.as_slice(), i)
            invariant
                raw@ == lv,
                lc@ == ascii_lower(lv),
                q@ == qv,
                qv.len() > 0,
                n == lv.len(),
                nbytes == byte_len(lv),
                start <= i <= n,
                off_i == byte_len(lv.take(i as int)),
                next_occ(ascii_lower(lv), qv, start as int) == next_occ(
                    ascii_lower(lv),
                    qv,
                    i as int,
                ),
            decreases n - i,
        {
            proof {
                lemma_byte_len_step(lv, i as int);
                if i + 1 < n {
                    lemma_byte_len_step(lv, i + 1);
                } else {
                    assert(lv.take(i + 1) =~= lv);
                }
            }
            off_i = off_i + utf8_width(raw[i]);
            i += 1;
        }
        let ghost before = segment_pairs(segs@);
        if i >= n || q.len() > n - i {
            assert(next_occ(ascii_lower(lv), qv, i as int) is None);
            if start < n {
                segs.push(LineSegment { text: string_of_range(&raw, start, n), kind: SegmentKind::Plain });
            }
            assert(segment_pairs(segs@) =~= before + hit_segments(lv, qv, line_idx as int, active_match, start as int));
            assert(segment_pairs(segs@) =~= hit_segments(lv, qv, line_idx as int, active_match, 0));
            assert(query_lc == Some(q_str));
            assert(match_lines@.contains(line_idx));
            return segs;
        }
        assert(next_occ(ascii_lower(lv), qv, i as int) == Some(i as int));
        let ghost p = i as int;
        if i > start {
            segs.push(LineSegment { text: string_of_range(&raw, start, i), kind: SegmentKind::Plain });
        }
        let kind = match active_match {
            Some(m) => if m.line == line_idx && m.column == off_i {
                SegmentKind::ActiveHit
            } else {
                SegmentKind::Hit
            },
            None => SegmentKind::Hit,
        };
        let end = i + q.len();
        segs.push(LineSegment { text: string_of_range(&raw, i, end), kind });
        let mut j: usize = i;
        let mut off_j: usize = off_i;
        while j < end
            invariant
                raw@ == lv,
                n == lv.len(),
                nbytes == byte_len(lv),
                i <= j <= end <= n,
                off_j == byte_len(lv.take(j as int)),
            decreases end - j,
        {
            proof {
                lemma_byte_len_step(lv, j as int);
                if j + 1 < n {
                    lemma_byte_len_step(lv, j + 1);
                } else {
                    assert(lv.take(j + 1) =~= lv);
                }
            }
            off_j = off_j + utf8_width(raw[j]);
            j += 1;
        }
        proof {
            lemma_next_occ(ascii_lower(lv), qv, start as int);
            let piece = if p > start {
                seq![(lv.subrange(start as int, p), SegmentKind::Plain)]
            } else {
                seq![]
            };
            let hit = seq![(lv.subrange(p, p + qv.len()), hit_kind(active_match, line_idx as int, off_i as int))];
            assert(segment_pairs(segs@) =~= before + piece + hit);
            assert(hit_segments(lv, qv, line_idx as int, active_match, start as int) == piece + hit
                + hit_segments(lv, qv, line_idx as int, active_match, p + qv.len()));
        }
        start = end;
        off = off_j;
    }
}

} // verus!

verus! {

/// `s` padded on the left with spaces to `width` characters.
pub open spec fn pad_left(s: Seq<char>, width: nat) -> Seq<char> {
    if s.len() < width {
        Seq::new((width - s.len()) as nat, |i: int| ' ') + s
    } else {
        s
    }
}

/// The line number shown before line `line_idx` of the text view: the number counted from
/// one, right-aligned in six columns, then ` | `.
pub fn line_number_label(line_idx: usize) -> (out: String)
    ensures
        out@ == pad_left(decimal(line_idx as nat + 1), 6) + " | "@,
{
    let digits = crate::text::decimal_string(line_idx as u128 + 1);
    let n = chars_of(digits.as_str()).len();
    let mut out = String::new();
    let mut k: usize = n;
    while k < 6
        invariant
            n <= k <= 6 || (n > 6 && k == n),
            out@ == Seq::new((k - n) as nat, |i: int| ' '),
        decreases 6 - k,
    {
        let ghost before = out@;
        crate::text::push_char(&mut out, ' ');
        assert(out@ =~= Seq::new((k + 1 - n) as nat, |i: int| ' '));
        k += 1;
    }
    out.append(digits.as_str());
    out.append(" | ");
    assert(out@ =~= pad_left(decimal(line_idx as nat + 1), 6) + " | "@);
    out
}

} // verus!
