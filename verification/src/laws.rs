use vstd::prelude::*;
use crate::search::ring_step;
use crate::viewer::{AppModel, ViewTab, advanced, hit_lines, rebuilt};

verus! {

/// Stepping forwards and then backwards through a ring of matches, or backwards and then
/// forwards, comes back to where it started; a step from a position of the ring stays in it.
pub proof fn law_ring_step_round_trip(cur: int, total: int)
    requires
        0 <= cur < total,
    ensures
        0 <= ring_step(cur, total, false) < total,
        0 <= ring_step(cur, total, true) < total,
        ring_step(ring_step(cur, total, false), total, true) == cur,
        ring_step(ring_step(cur, total, true), total, false) == cur,
{
    if cur + 1 < total {
        vstd::arithmetic::div_mod::lemma_small_mod((cur + 1) as nat, total as nat);
    } else {
        vstd::arithmetic::div_mod::lemma_mod_self_0(total);
    }
    if cur == 0 {
        vstd::arithmetic::div_mod::lemma_mod_self_0(total);
    } else {
        vstd::arithmetic::div_mod::lemma_small_mod(cur as nat, total as nat);
    }
}

/// Going to the next match and then to the previous one makes the match that was current
/// current again, in either view.
pub proof fn law_advance_round_trip(m: AppModel)
    requires
        m.wf(),
        m.tab == ViewTab::Tree ==> m.active_tree is Some,
        m.tab == ViewTab::Text ==> m.active_text is Some,
    ensures
        advanced(advanced(m, false), true).active_tree == m.active_tree,
        advanced(advanced(m, false), true).active_text == m.active_text,
        advanced(advanced(m, true), false).active_tree == m.active_tree,
        advanced(advanced(m, true), false).active_text == m.active_text,
{
    match m.tab {
        ViewTab::Tree => {
            law_ring_step_round_trip(m.active_tree->0, m.tree_matches.len() as int);
        },
        ViewTab::Text => {
            law_ring_step_round_trip(m.active_text->0, m.text_matches.len() as int);
        },
    }
}

/// Running the search again on the same query, document and lines changes nothing.
pub proof fn law_rebuild_idempotent(m: AppModel)
    ensures
        rebuilt(rebuilt(m)) == rebuilt(m),
{
    assert(rebuilt(rebuilt(m)) =~= rebuilt(m));
}

/// A line is listed as holding a hit exactly when some hit lies on it.
pub proof fn law_hit_lines_members(ms: Seq<(int, int)>, l: int)
    ensures
        hit_lines(ms).contains(l) <==> exists|i: int| 0 <= i < ms.len() && ms[i].0 == l,
    decreases ms.len(),
{
    if ms.len() > 0 {
        let rest = ms.drop_last();
        let d = hit_lines(rest);
        let x = ms.last().0;
        law_hit_lines_members(rest, l);
        let whole = hit_lines(ms);
        assert(d.contains(l) ==> whole.contains(l)) by {
            if d.contains(l) {
                let k = choose|k: int| 0 <= k < d.len() && d[k] == l;
                if !(d.len() > 0 && d.last() == x) {
                    assert(whole[k] == l);
                }
            }
        }
        assert(whole.contains(x)) by {
            if d.len() > 0 && d.last() == x {
                assert(whole[d.len() - 1] == x);
            } else {
                assert(whole[d.len() as int] == x);
            }
        }
        assert(whole.contains(l) ==> d.contains(l) || l == x) by {
            if whole.contains(l) {
                let k = choose|k: int| 0 <= k < whole.len() && whole[k] == l;
                if k < d.len() {
                    assert(d[k] == l);
                }
            }
        }
        if exists|i: int| 0 <= i < ms.len() && ms[i].0 == l {
            let i = choose|i: int| 0 <= i < ms.len() && ms[i].0 == l;
            if i < ms.len() - 1 {
                assert(rest[i].0 == l);
            }
        }
        if d.contains(l) {
            let i = choose|i: int| 0 <= i < rest.len() && rest[i].0 == l;
            assert(ms[i].0 == l);
        }
    }
}

} // verus!

verus! {

/// A hit of `q` in line `l` at character position `p`.
pub open spec fn is_hit_at(line: Seq<char>, q: Seq<char>, l: int, p: int, hit: (int, int)) -> bool {
    &&& 0 <= p < line.len()
    &&& crate::text::occurs_at(crate::text::ascii_lower(line), q, p)
    &&& hit == (l, crate::text::byte_len(line.take(p)) as int)
}

/// `hit` is a hit of `q` in line `l` at some character position.
pub open spec fn is_line_hit(line: Seq<char>, q: Seq<char>, l: int, hit: (int, int)) -> bool {
    exists|p: int| #[trigger] is_hit_at(line, q, l, p, hit)
}

/// `hit` is a hit of `q` in one of `lines`.
pub open spec fn is_text_hit(lines: Seq<Seq<char>>, q: Seq<char>, hit: (int, int)) -> bool {
    exists|l: int| 0 <= l < lines.len() && #[trigger] is_line_hit(lines[l], q, l, hit)
}

proof fn lemma_line_hits_exact(line: Seq<char>, q: Seq<char>, l: int, i: int)
    requires
        q.len() > 0,
        0 <= i,
    ensures
        forall|k: int|
            #![trigger crate::search::line_hits(line, q, l, i)[k]]
            0 <= k < crate::search::line_hits(line, q, l, i).len() ==> is_line_hit(
                line,
                q,
                l,
                crate::search::line_hits(line, q, l, i)[k],
            ),
        forall|p: int|
            i <= p && crate::text::occurs_at(crate::text::ascii_lower(line), q, p) ==> crate::search::line_hits(
                line,
                q,
                l,
                i,
            ).contains((l, crate::text::byte_len(line.take(p)) as int)),
    decreases line.len() - i,
{
    let hits = crate::search::line_hits(line, q, l, i);
    let lc = crate::text::ascii_lower(line);
    if i >= line.len() || i + q.len() > line.len() {
        assert forall|p: int| i <= p && crate::text::occurs_at(lc, q, p) implies false by {}
        assert(hits.len() == 0);
    } else {
        lemma_line_hits_exact(line, q, l, i + 1);
        let rest = crate::search::line_hits(line, q, l, i + 1);
        let here = if crate::text::occurs_at(lc, q, i) {
            seq![(l, crate::text::byte_len(line.take(i)) as int)]
        } else {
            seq![]
        };
        assert(hits == here + rest);
        assert forall|k: int| #![trigger hits[k]] 0 <= k < hits.len() implies is_line_hit(
            line,
            q,
            l,
            hits[k],
        ) by {
            if k < here.len() {
                assert(is_hit_at(line, q, l, i, hits[k]));
            } else {
                assert(hits[k] == rest[k - here.len()]);
                assert(is_line_hit(line, q, l, rest[k - here.len()]));
            }
        }
        assert forall|p: int| i <= p && crate::text::occurs_at(lc, q, p) implies hits.contains(
            (l, crate::text::byte_len(line.take(p)) as int),
        ) by {
            if p == i {
                assert(hits[0] == (l, crate::text::byte_len(line.take(p)) as int));
            } else {
                let x = (l, crate::text::byte_len(line.take(p)) as int);
                assert(rest.contains(x));
                let k = choose|k: int| 0 <= k < rest.len() && rest[k] == x;
                assert(hits[k + here.len()] == x);
            }
        }
    }
}

/// The text search finds exactly the hits of the query: each hit it lists is a place where
/// the query stands in the lowercased line, with that place's line and byte column, and each
/// such place is listed.
pub proof fn law_text_search_exact(lines: Seq<Seq<char>>, q: Seq<char>)
    requires
        q.len() > 0,
    ensures
        forall|k: int|
            #![trigger crate::search::text_hits(lines, q)[k]]
            0 <= k < crate::search::text_hits(lines, q).len() ==> is_text_hit(
                lines,
                q,
                crate::search::text_hits(lines, q)[k],
            ),
        forall|l: int, p: int|
            0 <= l < lines.len() && crate::text::occurs_at(crate::text::ascii_lower(lines[l]), q, p)
                ==> crate::search::text_hits(lines, q).contains(
                (l, crate::text::byte_len(lines[l].take(p)) as int),
            ),
    decreases lines.len(),
{
    if lines.len() > 0 {
        let n = lines.len() - 1;
        let before = lines.drop_last();
        law_text_search_exact(before, q);
        lemma_line_hits_exact(lines[n], q, n, 0);
        let a = crate::search::text_hits(before, q);
        let b = crate::search::line_hits(lines[n], q, n, 0);
        let all = crate::search::text_hits(lines, q);
        assert(all == a + b);
        assert(all.len() == a.len() + b.len());
        assert forall|k: int| #![trigger all[k]] 0 <= k < all.len() implies is_text_hit(
            lines,
            q,
            all[k],
        ) by {
            if k < a.len() {
                assert(all[k] == a[k]);
                assert(is_text_hit(before, q, a[k]));
                let l = choose|l: int| 0 <= l < before.len() && #[trigger] is_line_hit(before[l], q, l, a[k]);
                assert(before[l] == lines[l]);
                assert(is_line_hit(lines[l], q, l, all[k]));
            } else {
                assert(all[k] == b[k - a.len()]);
                assert(is_line_hit(lines[n], q, n, b[k - a.len()]));
                assert(is_line_hit(lines[n], q, n, all[k]));
            }
        }
        assert forall|l: int, p: int|
            0 <= l < lines.len() && crate::text::occurs_at(crate::text::ascii_lower(lines[l]), q, p)
                implies all.contains((l, crate::text::byte_len(lines[l].take(p)) as int)) by {
            let x = (l, crate::text::byte_len(lines[l].take(p)) as int);
            if l < n {
                assert(before[l] == lines[l]);
                assert(a.contains(x));
                let k = choose|k: int| 0 <= k < a.len() && a[k] == x;
                assert(all[k] == x);
            } else {
                assert(b.contains(x));
                let k = choose|k: int| 0 <= k < b.len() && b[k] == x;
                assert(all[k + a.len()] == x);
            }
        }
    } else {
        assert(crate::search::text_hits(lines, q).len() == 0);
    }
}

} // verus!

verus! {

proof fn lemma_trim_start_shape(s: Seq<char>)
    ensures
        exists|k: int| 0 <= k <= s.len() && crate::text::trim_start(s) == s.skip(k),
        crate::text::trim_start(s).len() > 0 ==> !crate::text::is_ws(crate::text::trim_start(s)[0]),
    decreases s.len(),
{
    if s.len() > 0 && crate::text::is_ws(s[0]) {
        lemma_trim_start_shape(s.drop_first());
        let k = choose|k: int|
            0 <= k <= s.drop_first().len() && crate::text::trim_start(s.drop_first())
                == s.drop_first().skip(k);
        assert(s.drop_first().skip(k) =~= s.skip(k + 1));
    } else {
        assert(s.skip(0) =~= s);
    }
}

proof fn lemma_trim_end_shape(s: Seq<char>)
    ensures
        exists|k: int| 0 <= k <= s.len() && crate::text::trim_end(s) == s.take(k),
        crate::text::trim_end(s).len() > 0 ==> !crate::text::is_ws(crate::text::trim_end(s).last()),
    decreases s.len(),
{
    if s.len() > 0 && crate::text::is_ws(s.last()) {
        lemma_trim_end_shape(s.drop_last());
        let k = choose|k: int|
            0 <= k <= s.drop_last().len() && crate::text::trim_end(s.drop_last()) == s.drop_last().take(
                k,
            );
        assert(s.drop_last().take(k) =~= s.take(k));
    } else {
        assert(s.take(s.len() as int) =~= s);
    }
}

proof fn lemma_trim_ends(s: Seq<char>)
    ensures
        crate::text::trim(s).len() > 0 ==> !crate::text::is_ws(crate::text::trim(s)[0])
            && !crate::text::is_ws(crate::text::trim(s).last()),
{
    let t = crate::text::trim_start(s);
    lemma_trim_start_shape(s);
    lemma_trim_end_shape(t);
    let k = choose|k: int| 0 <= k <= t.len() && crate::text::trim_end(t) == t.take(k);
    if crate::text::trim(s).len() > 0 {
        assert(crate::text::trim(s)[0] == t[0]);
    }
}

/// Normalizing a normalized query gives it back: it is already trimmed and lowercase.
pub proof fn law_normalized_idempotent(query: Seq<char>)
    ensures
        crate::search::normalized(query) matches Some(n) ==> crate::search::normalized(n) == Some(n),
{
    if let Some(n) = crate::search::normalized(query) {
        let t = crate::text::trim(query);
        lemma_trim_ends(query);
        assert(n == crate::text::ascii_lower(t));
        assert(!crate::text::is_ws(n[0]));
        assert(!crate::text::is_ws(n.last()));
        assert(crate::text::trim_start(n) == n);
        assert(crate::text::trim_end(n) == n);
        assert(crate::text::ascii_lower(n) =~= n);
    }
}

} // verus!

verus! {

proof fn lemma_scan_node(key: Seq<char>, path: Seq<char>, v: crate::json::JsonValue, q: Seq<char>)
    ensures
        ({
            let s = crate::json::scan_node(key, path, v, q);
            &&& s.hit <==> s.matches.len() > 0
            &&& s.hit <==> s.opened.len() > 0
            &&& s.hit ==> s.opened.last() == path
        }),
    decreases v, 1nat, 0nat,
{
    lemma_scan_kids(path, v, q, crate::json::child_count(v));
}

proof fn lemma_scan_kids(path: Seq<char>, v: crate::json::JsonValue, q: Seq<char>, n: nat)
    ensures
        ({
            let s = crate::json::scan_kids(path, v, q, n);
            &&& s.hit <==> s.matches.len() > 0
            &&& s.hit <==> s.opened.len() > 0
        }),
    decreases v, 0nat, n,
{
    if n == 0 || n > crate::json::child_count(v) {
    } else {
        lemma_scan_kids(path, v, q, (n - 1) as nat);
        match v {
            crate::json::JsonValue::Array(items) => {
                lemma_scan_node(
                    crate::json::index_key((n - 1) as nat),
                    path + crate::json::index_key((n - 1) as nat),
                    items@[n - 1],
                    q,
                );
            },
            crate::json::JsonValue::Object(members) => {
                lemma_scan_node(
                    members@[n - 1].0@,
                    crate::json::member_path(path, members@[n - 1].0@),
                    members@[n - 1].1,
                    q,
                );
            },
            _ => {},
        }
    }
}

/// The tree search of a subtree finds a match exactly when it opens a node, and then the
/// subtree's own root is the last node it opens: every node with a match below it is
/// opened, after the nodes below it.
pub proof fn law_tree_search_opens(
    key: Seq<char>,
    path: Seq<char>,
    v: crate::json::JsonValue,
    q: Seq<char>,
)
    ensures
        ({
            let s = crate::json::scan_node(key, path, v, q);
            &&& s.hit <==> s.matches.len() > 0
            &&& s.hit <==> s.opened.len() > 0
            &&& s.hit ==> s.opened.last() == path
        }),
{
    lemma_scan_node(key, path, v, q);
}

/// The characters of a sequence of segments, one after the other.
pub open spec fn segments_text(segs: Seq<(Seq<char>, crate::search::SegmentKind)>) -> Seq<char>
    decreases segs.len(),
{
    if segs.len() == 0 {
        seq![]
    } else {
        segs[0].0 + segments_text(segs.drop_first())
    }
}

proof fn lemma_segments_text_one(x: (Seq<char>, crate::search::SegmentKind))
    ensures
        segments_text(seq![x]) == x.0,
{
    let one = seq![x];
    let none = Seq::<(Seq<char>, crate::search::SegmentKind)>::empty();
    assert(one.drop_first() =~= none);
    assert(segments_text(none) == Seq::<char>::empty());
    assert(segments_text(one) == x.0 + segments_text(one.drop_first()));
    assert(x.0 + Seq::<char>::empty() =~= x.0);
}

proof fn lemma_segments_text_concat(
    a: Seq<(Seq<char>, crate::search::SegmentKind)>,
    b: Seq<(Seq<char>, crate::search::SegmentKind)>,
)
    ensures
        segments_text(a + b) == segments_text(a) + segments_text(b),
    decreases a.len(),
{
    if a.len() == 0 {
        assert(a + b =~= b);
    } else {
        assert((a + b).drop_first() =~= a.drop_first() + b);
        lemma_segments_text_concat(a.drop_first(), b);
        assert(segments_text(a + b) =~= segments_text(a) + segments_text(b));
    }
}

proof fn lemma_hit_segments_text(
    line: Seq<char>,
    q: Seq<char>,
    l: int,
    active: Option<crate::search::TextMatch>,
    start: int,
)
    requires
        q.len() > 0,
        0 <= start <= line.len(),
    ensures
        segments_text(crate::search::hit_segments(line, q, l, active, start)) == line.skip(start),
    decreases line.len() - start,
{
    let lc = crate::text::ascii_lower(line);
    crate::search::lemma_next_occ(lc, q, start);
    match crate::search::next_occ(lc, q, start) {
        None => {
            if start < line.len() {
                let one = seq![(line.subrange(start, line.len() as int), crate::search::SegmentKind::Plain)];
                lemma_segments_text_one(one[0]);
                assert(line.skip(start) =~= line.subrange(start, line.len() as int));
            } else {
                assert(line.skip(start) =~= Seq::<char>::empty());
            }
        },
        Some(p) => {
            let piece = if p > start {
                seq![(line.subrange(start, p), crate::search::SegmentKind::Plain)]
            } else {
                seq![]
            };
            let hit = seq![
                (
                    line.subrange(p, p + q.len()),
                    crate::search::hit_kind(active, l, crate::text::byte_len(line.take(p)) as int),
                ),
            ];
            let rest = crate::search::hit_segments(line, q, l, active, p + q.len());
            lemma_hit_segments_text(line, q, l, active, p + q.len());
            lemma_segments_text_concat(piece + hit, rest);
            lemma_segments_text_concat(piece, hit);
            lemma_segments_text_one(hit[0]);
            if p > start {
                lemma_segments_text_one(piece[0]);
            } else {
                assert(segments_text(piece) =~= Seq::<char>::empty());
            }
            assert(crate::search::hit_segments(line, q, l, active, start) == piece + hit + rest);
            assert(segments_text(piece) + segments_text(hit) + line.skip(p + q.len()) =~= line.skip(
                start,
            ));
        },
    }
}

/// The text view shows every line unchanged: the segments of a line, one after the other,
/// give the line back, whatever the query and the current match.
pub proof fn law_segments_rebuild_line(
    line: Seq<char>,
    l: int,
    query: Option<Seq<char>>,
    active: Option<crate::search::TextMatch>,
    listed: bool,
)
    ensures
        segments_text(crate::search::line_segments_spec(line, l, query, active, listed)) == line,
{
    let whole = seq![(line, crate::search::SegmentKind::Plain)];
    lemma_segments_text_one(whole[0]);
    if let Some(q) = query {
        if q.len() > 0 && listed {
            lemma_hit_segments_text(line, q, l, active, 0);
            assert(line.skip(0) =~= line);
        }
    }
}

} // verus!

verus! {

/// Lines joined with line feeds between them.
pub open spec fn joined(ls: Seq<Seq<char>>) -> Seq<char>
    decreases ls.len(),
{
    if ls.len() == 0 {
        seq![]
    } else if ls.len() == 1 {
        ls[0]
    } else {
        joined(ls.drop_last()) + seq!['\n'] + ls.last()
    }
}

proof fn lemma_pieces_join(s: Seq<char>)
    ensures
        crate::search::nl_pieces(s).len() >= 1,
        joined(crate::search::nl_pieces(s)) == s,
        crate::search::nl_pieces(s).last().len() == 0 && s.len() > 0 ==> s.last() == '\n',
        s.len() > 0 && s.last() == '\n' ==> crate::search::nl_pieces(s).last().len() == 0,
        (forall|i: int| 0 <= i < s.len() ==> s[i] != '\r') ==> forall|k: int, j: int|
            0 <= k < crate::search::nl_pieces(s).len() && 0 <= j < crate::search::nl_pieces(
                s,
            )[k].len() ==> #[trigger] crate::search::nl_pieces(s)[k][j] != '\r',
    decreases s.len(),
{
    if s.len() == 0 {
        assert(joined(crate::search::nl_pieces(s)) =~= s);
    } else {
        let t = s.drop_last();
        let c = s.last();
        lemma_pieces_join(t);
        let p = crate::search::nl_pieces(t);
        let ps = crate::search::nl_pieces(s);
        assert(s =~= t.push(c));
        if c == '\n' {
            assert(ps == p.push(Seq::<char>::empty()));
            assert(ps.drop_last() =~= p);
            assert(joined(ps) == joined(p) + seq!['\n'] + Seq::<char>::empty());
            assert(joined(ps) =~= s);
        } else {
            let np = p.update(p.len() - 1, p.last().push(c));
            assert(ps == np);
            if p.len() == 1 {
                assert(joined(ps) == np[0]);
                assert(joined(p) == p[0]);
                assert(joined(ps) =~= s);
            } else {
                assert(np.drop_last() =~= p.drop_last());
                assert(joined(ps) == joined(p.drop_last()) + seq!['\n'] + p.last().push(c));
                assert(joined(p) == joined(p.drop_last()) + seq!['\n'] + p.last());
                assert(joined(ps) =~= s);
            }
        }
        if forall|i: int| 0 <= i < s.len() ==> s[i] != '\r' {
            assert forall|i: int| 0 <= i < t.len() implies t[i] != '\r' by {
                assert(t[i] == s[i]);
            }
            assert forall|k: int, j: int|
                0 <= k < ps.len() && 0 <= j < ps[k].len() implies #[trigger] ps[k][j] != '\r' by {
                if c != '\n' && k == p.len() - 1 && j == p.last().len() {
                    assert(ps[k][j] == c);
                    assert(c == s[s.len() - 1]);
                } else if k < p.len() {
                    assert(ps[k][j] == p[k][j]);
                }
            }
        }
    }
}

/// Splitting a text without carriage returns into lines loses only the line feeds: the
/// lines joined with line feeds, and one more where the text ends in one, give the text
/// back.
pub proof fn law_lines_rejoin(s: Seq<char>)
    requires
        forall|i: int| 0 <= i < s.len() ==> s[i] != '\r',
    ensures
        s == joined(crate::search::lines_of(s)) + if s.len() > 0 && s.last() == '\n' {
            seq!['\n']
        } else {
            seq![]
        },
{
    lemma_pieces_join(s);
    let p = crate::search::nl_pieces(s);
    let body = p.drop_last().map_values(|l: Seq<char>| crate::search::strip_cr(l));
    assert(body =~= p.drop_last()) by {
        assert forall|k: int| 0 <= k < p.drop_last().len() implies body[k] == p.drop_last()[k] by {
            let piece = p[k];
            if piece.len() > 0 {
                assert(piece[piece.len() - 1] != '\r');
            }
        }
    }
    if p.last().len() == 0 {
        if p.len() == 1 {
            assert(s.len() == 0 || s.last() == '\n');
            if s.len() > 0 {
                assert(joined(p) == p[0]);
            }
            assert(s =~= Seq::<char>::empty());
        } else {
            assert(joined(p) == joined(p.drop_last()) + seq!['\n'] + p.last());
            assert(s.len() > 0);
        }
    } else {
        assert(p.drop_last().push(p.last()) =~= p);
    }
}

} // verus!

verus! {

/// The nodes of the subtree `v` shown under `key` at `path`, in pre-order, each as its key,
/// its path and its value.
pub open spec fn preorder(key: Seq<char>, path: Seq<char>, v: crate::json::JsonValue) -> Seq<
    (Seq<char>, Seq<char>, crate::json::JsonValue),
>
    decreases v, 1nat, 0nat,
{
    seq![(key, path, v)] + preorder_kids(path, v, crate::json::child_count(v))
}

/// The nodes below the first `n` children of `v` at `path`, in pre-order.
pub open spec fn preorder_kids(path: Seq<char>, v: crate::json::JsonValue, n: nat) -> Seq<
    (Seq<char>, Seq<char>, crate::json::JsonValue),
>
    decreases v, 0nat, n,
{
    if n == 0 || n > crate::json::child_count(v) {
        seq![]
    } else {
        preorder_kids(path, v, (n - 1) as nat) + match v {
            crate::json::JsonValue::Array(items) => preorder(
                crate::json::index_key((n - 1) as nat),
                path + crate::json::index_key((n - 1) as nat),
                items@[n - 1],
            ),
            crate::json::JsonValue::Object(members) => preorder(
                members@[n - 1].0@,
                crate::json::member_path(path, members@[n - 1].0@),
                members@[n - 1].1,
            ),
            _ => seq![],
        }
    }
}

/// The paths of the nodes among `nodes` whose lowercased label holds `q`, in order.
pub open spec fn label_hit_paths(
    nodes: Seq<(Seq<char>, Seq<char>, crate::json::JsonValue)>,
    q: Seq<char>,
) -> Seq<Seq<char>>
    decreases nodes.len(),
{
    if nodes.len() == 0 {
        seq![]
    } else {
        let n = nodes[0];
        (if crate::text::contains_seq(
            crate::text::ascii_lower(crate::json::label_text(n.0, n.2)),
            q,
        ) {
            seq![n.1]
        } else {
            seq![]
        }) + label_hit_paths(nodes.drop_first(), q)
    }
}

proof fn lemma_label_hit_paths_concat(
    a: Seq<(Seq<char>, Seq<char>, crate::json::JsonValue)>,
    b: Seq<(Seq<char>, Seq<char>, crate::json::JsonValue)>,
    q: Seq<char>,
)
    ensures
        label_hit_paths(a + b, q) == label_hit_paths(a, q) + label_hit_paths(b, q),
    decreases a.len(),
{
    if a.len() == 0 {
        assert(a + b =~= b);
        assert(label_hit_paths(a, q) =~= Seq::<Seq<char>>::empty());
        assert(label_hit_paths(a + b, q) =~= label_hit_paths(a, q) + label_hit_paths(b, q));
    } else {
        assert((a + b).drop_first() =~= a.drop_first() + b);
        assert((a + b)[0] == a[0]);
        lemma_label_hit_paths_concat(a.drop_first(), b, q);
        assert(label_hit_paths(a + b, q) =~= label_hit_paths(a, q) + label_hit_paths(b, q));
    }
}

proof fn lemma_scan_node_preorder(
    key: Seq<char>,
    path: Seq<char>,
    v: crate::json::JsonValue,
    q: Seq<char>,
)
    ensures
        crate::json::scan_node(key, path, v, q).matches == label_hit_paths(preorder(key, path, v), q),
    decreases v, 1nat, 0nat,
{
    lemma_scan_kids_preorder(path, v, q, crate::json::child_count(v));
    let me = seq![(key, path, v)];
    lemma_label_hit_paths_concat(me, preorder_kids(path, v, crate::json::child_count(v)), q);
    assert(me.drop_first() =~= Seq::<(Seq<char>, Seq<char>, crate::json::JsonValue)>::empty());
    assert(label_hit_paths(me.drop_first(), q) =~= Seq::<Seq<char>>::empty());
    assert(crate::json::scan_node(key, path, v, q).matches =~= label_hit_paths(
        preorder(key, path, v),
        q,
    ));
}

proof fn lemma_scan_kids_preorder(path: Seq<char>, v: crate::json::JsonValue, q: Seq<char>, n: nat)
    ensures
        crate::json::scan_kids(path, v, q, n).matches == label_hit_paths(preorder_kids(path, v, n), q),
    decreases v, 0nat, n,
{
    if n == 0 || n > crate::json::child_count(v) {
        assert(label_hit_paths(preorder_kids(path, v, n), q) =~= Seq::<Seq<char>>::empty());
    } else {
        lemma_scan_kids_preorder(path, v, q, (n - 1) as nat);
        let before = preorder_kids(path, v, (n - 1) as nat);
        match v {
            crate::json::JsonValue::Array(items) => {
                let k = crate::json::index_key((n - 1) as nat);
                lemma_scan_node_preorder(k, path + k, items@[n - 1], q);
                lemma_label_hit_paths_concat(before, preorder(k, path + k, items@[n - 1]), q);
            },
            crate::json::JsonValue::Object(members) => {
                let k = members@[n - 1].0@;
                let p = crate::json::member_path(path, k);
                lemma_scan_node_preorder(k, p, members@[n - 1].1, q);
                lemma_label_hit_paths_concat(before, preorder(k, p, members@[n - 1].1), q);
            },
            _ => {},
        }
    }
}

/// The tree search lists exactly the nodes whose lowercased label holds the query, by
/// their paths, in pre-order.
pub proof fn law_tree_matches_are_label_hits(
    key: Seq<char>,
    path: Seq<char>,
    v: crate::json::JsonValue,
    q: Seq<char>,
)
    ensures
        crate::json::scan_node(key, path, v, q).matches == label_hit_paths(preorder(key, path, v), q),
{
    lemma_scan_node_preorder(key, path, v, q);
}

} // verus!

verus! {

/// The nodes of the subtree `v` shown under `key` at `path`, in post-order.
pub open spec fn postorder(key: Seq<char>, path: Seq<char>, v: crate::json::JsonValue) -> Seq<
    (Seq<char>, Seq<char>, crate::json::JsonValue),
>
    decreases v, 1nat, 0nat,
{
    postorder_kids(path, v, crate::json::child_count(v)) + seq![(key, path, v)]
}

/// The nodes below the first `n` children of `v` at `path`, in post-order.
pub open spec fn postorder_kids(path: Seq<char>, v: crate::json::JsonValue, n: nat) -> Seq<
    (Seq<char>, Seq<char>, crate::json::JsonValue),
>
    decreases v, 0nat, n,
{
    if n == 0 || n > crate::json::child_count(v) {
        seq![]
    } else {
        postorder_kids(path, v, (n - 1) as nat) + match v {
            crate::json::JsonValue::Array(items) => postorder(
                crate::json::index_key((n - 1) as nat),
                path + crate::json::index_key((n - 1) as nat),
                items@[n - 1],
            ),
            crate::json::JsonValue::Object(members) => postorder(
                members@[n - 1].0@,
                crate::json::member_path(path, members@[n - 1].0@),
                members@[n - 1].1,
            ),
            _ => seq![],
        }
    }
}

/// The paths of the nodes among `nodes` whose subtree holds a node whose lowercased label
/// holds `q`, in order.
pub open spec fn subtree_hit_paths(
    nodes: Seq<(Seq<char>, Seq<char>, crate::json::JsonValue)>,
    q: Seq<char>,
) -> Seq<Seq<char>>
    decreases nodes.len(),
{
    if nodes.len() == 0 {
        seq![]
    } else {
        let n = nodes[0];
        (if label_hit_paths(preorder(n.0, n.1, n.2), q).len() > 0 {
            seq![n.1]
        } else {
            seq![]
        }) + subtree_hit_paths(nodes.drop_first(), q)
    }
}

proof fn lemma_subtree_hit_paths_concat(
    a: Seq<(Seq<char>, Seq<char>, crate::json::JsonValue)>,
    b: Seq<(Seq<char>, Seq<char>, crate::json::JsonValue)>,
    q: Seq<char>,
)
    ensures
        subtree_hit_paths(a + b, q) == subtree_hit_paths(a, q) + subtree_hit_paths(b, q),
    decreases a.len(),
{
    if a.len() == 0 {
        assert(a + b =~= b);
        assert(subtree_hit_paths(a, q) =~= Seq::<Seq<char>>::empty());
        assert(subtree_hit_paths(a + b, q) =~= subtree_hit_paths(a, q) + subtree_hit_paths(b, q));
    } else {
        assert((a + b).drop_first() =~= a.drop_first() + b);
        assert((a + b)[0] == a[0]);
        lemma_subtree_hit_paths_concat(a.drop_first(), b, q);
        assert(subtree_hit_paths(a + b, q) =~= subtree_hit_paths(a, q) + subtree_hit_paths(b, q));
    }
}

proof fn lemma_scan_node_postorder(
    key: Seq<char>,
    path: Seq<char>,
    v: crate::json::JsonValue,
    q: Seq<char>,
)
    ensures
        crate::json::scan_node(key, path, v, q).opened == subtree_hit_paths(postorder(key, path, v), q),
    decreases v, 1nat, 0nat,
{
    lemma_scan_kids_postorder(path, v, q, crate::json::child_count(v));
    lemma_scan_node(key, path, v, q);
    lemma_scan_node_preorder(key, path, v, q);
    let me = seq![(key, path, v)];
    let kids = postorder_kids(path, v, crate::json::child_count(v));
    lemma_subtree_hit_paths_concat(kids, me, q);
    assert(me.drop_first() =~= Seq::<(Seq<char>, Seq<char>, crate::json::JsonValue)>::empty());
    assert(subtree_hit_paths(me.drop_first(), q) =~= Seq::<Seq<char>>::empty());
    let s = crate::json::scan_node(key, path, v, q);
    if s.hit {
        assert(subtree_hit_paths(me, q) =~= seq![path]);
    } else {
        assert(subtree_hit_paths(me, q) =~= Seq::<Seq<char>>::empty());
    }
    assert(s.opened =~= subtree_hit_paths(postorder(key, path, v), q));
}

proof fn lemma_scan_kids_postorder(path: Seq<char>, v: crate::json::JsonValue, q: Seq<char>, n: nat)
    ensures
        crate::json::scan_kids(path, v, q, n).opened == subtree_hit_paths(
            postorder_kids(path, v, n),
            q,
        ),
    decreases v, 0nat, n,
{
    if n == 0 || n > crate::json::child_count(v) {
        assert(subtree_hit_paths(postorder_kids(path, v, n), q) =~= Seq::<Seq<char>>::empty());
    } else {
        lemma_scan_kids_postorder(path, v, q, (n - 1) as nat);
        let before = postorder_kids(path, v, (n - 1) as nat);
        match v {
            crate::json::JsonValue::Array(items) => {
                let k = crate::json::index_key((n - 1) as nat);
                lemma_scan_node_postorder(k, path + k, items@[n - 1], q);
                lemma_subtree_hit_paths_concat(before, postorder(k, path + k, items@[n - 1]), q);
            },
            crate::json::JsonValue::Object(members) => {
                let k = members@[n - 1].0@;
                let p = crate::json::member_path(path, k);
                lemma_scan_node_postorder(k, p, members@[n - 1].1, q);
                lemma_subtree_hit_paths_concat(before, postorder(k, p, members@[n - 1].1), q);
            },
            _ => {},
        }
    }
}

/// The tree search opens exactly the nodes whose subtree holds a node whose lowercased label
/// holds the query, by their paths, in post-order: so every node above a match is open.
pub proof fn law_tree_opens_ancestors_of_matches(
    key: Seq<char>,
    path: Seq<char>,
    v: crate::json::JsonValue,
    q: Seq<char>,
)
    ensures
        crate::json::scan_node(key, path, v, q).opened == subtree_hit_paths(
            postorder(key, path, v),
            q,
        ),
{
    lemma_scan_node_postorder(key, path, v, q);
}

} // verus!

verus! {

/// Hit `a` comes before hit `b` in reading order: an earlier line, or the same line and an
/// earlier column.
pub open spec fn reads_before(a: (int, int), b: (int, int)) -> bool {
    a.0 < b.0 || (a.0 == b.0 && a.1 < b.1)
}

proof fn lemma_byte_len_grows(s: Seq<char>, i: int, j: int)
    requires
        0 <= i < j <= s.len(),
    ensures
        crate::text::byte_len(s.take(i)) < crate::text::byte_len(s.take(j)),
    decreases j - i,
{
    crate::text::lemma_byte_len_step(s, j - 1);
    assert(vstd::utf8::encode_scalar(s[j - 1] as u32).len() >= 1);
    if i < j - 1 {
        lemma_byte_len_grows(s, i, j - 1);
    }
}

proof fn lemma_line_hits_sorted(line: Seq<char>, q: Seq<char>, l: int, i: int)
    requires
        q.len() > 0,
        0 <= i,
    ensures
        ({
            let h = crate::search::line_hits(line, q, l, i);
            &&& forall|k: int| 0 <= k < h.len() ==> #[trigger] h[k].0 == l && crate::text::byte_len(
                line.take(i),
            ) <= h[k].1
            &&& forall|a: int, b: int| 0 <= a < b < h.len() ==> h[a].1 < h[b].1
        }),
    decreases line.len() - i,
{
    let h = crate::search::line_hits(line, q, l, i);
    if i >= line.len() || i + q.len() > line.len() {
    } else {
        lemma_line_hits_sorted(line, q, l, i + 1);
        lemma_byte_len_grows(line, i, i + 1);
        let rest = crate::search::line_hits(line, q, l, i + 1);
        let here = if crate::text::occurs_at(crate::text::ascii_lower(line), q, i) {
            seq![(l, crate::text::byte_len(line.take(i)) as int)]
        } else {
            seq![]
        };
        assert(h == here + rest);
        assert forall|k: int| 0 <= k < h.len() implies #[trigger] h[k].0 == l
            && crate::text::byte_len(line.take(i)) <= h[k].1 by {
            if k >= here.len() {
                assert(h[k] == rest[k - here.len()]);
                assert(rest[k - here.len()].0 == l);
            }
        }
        assert forall|a: int, b: int| 0 <= a < b < h.len() implies h[a].1 < h[b].1 by {
            assert(h[b] == rest[b - here.len()]);
            assert(rest[b - here.len()].0 == l);
            if a >= here.len() {
                assert(h[a] == rest[a - here.len()]);
                assert(rest[a - here.len()].1 < rest[b - here.len()].1);
            }
        }
    }
}

proof fn lemma_text_hits_sorted(lines: Seq<Seq<char>>, q: Seq<char>)
    requires
        q.len() > 0,
    ensures
        ({
            let h = crate::search::text_hits(lines, q);
            &&& forall|k: int| 0 <= k < h.len() ==> 0 <= #[trigger] h[k].0 < lines.len()
            &&& forall|a: int, b: int| 0 <= a < b < h.len() ==> reads_before(h[a], h[b])
        }),
    decreases lines.len(),
{
    if lines.len() > 0 {
        let n = lines.len() - 1;
        lemma_text_hits_sorted(lines.drop_last(), q);
        lemma_line_hits_sorted(lines[n], q, n, 0);
        let a = crate::search::text_hits(lines.drop_last(), q);
        let b = crate::search::line_hits(lines[n], q, n, 0);
        let h = crate::search::text_hits(lines, q);
        assert(h == a + b);
        assert forall|k: int| 0 <= k < h.len() implies 0 <= #[trigger] h[k].0 < lines.len() by {
            if k < a.len() {
                assert(h[k] == a[k]);
            } else {
                assert(h[k] == b[k - a.len()]);
            }
        }
        assert forall|x: int, y: int| 0 <= x < y < h.len() implies reads_before(h[x], h[y]) by {
            if y < a.len() {
                assert(h[x] == a[x] && h[y] == a[y]);
            } else if x < a.len() {
                assert(h[x] == a[x]);
                assert(h[y] == b[y - a.len()]);
                assert(a[x].0 < n);
            } else {
                assert(h[x] == b[x - a.len()] && h[y] == b[y - a.len()]);
            }
        }
    }
}

/// The text hits come in reading order, each on one of the lines, so stepping through them
/// goes down the text; and the lines listed as holding a hit come in increasing order, each
/// once.
pub proof fn law_text_hits_in_reading_order(lines: Seq<Seq<char>>, q: Seq<char>)
    requires
        q.len() > 0,
    ensures
        ({
            let h = crate::search::text_hits(lines, q);
            let ls = hit_lines(h);
            &&& forall|k: int| 0 <= k < h.len() ==> 0 <= #[trigger] h[k].0 < lines.len()
            &&& forall|a: int, b: int| 0 <= a < b < h.len() ==> reads_before(h[a], h[b])
            &&& forall|a: int, b: int| 0 <= a < b < ls.len() ==> ls[a] < ls[b]
        }),
{
    let h = crate::search::text_hits(lines, q);
    lemma_text_hits_sorted(lines, q);
    assert forall|a: int, b: int| 0 <= a < b < h.len() implies h[a].0 <= h[b].0 by {
        assert(reads_before(h[a], h[b]));
    }
    lemma_hit_lines_increasing(h);
}

proof fn lemma_hit_lines_increasing(ms: Seq<(int, int)>)
    requires
        forall|a: int, b: int| 0 <= a < b < ms.len() ==> ms[a].0 <= ms[b].0,
    ensures
        forall|a: int, b: int| 0 <= a < b < hit_lines(ms).len() ==> hit_lines(ms)[a] < hit_lines(
            ms,
        )[b],
        ms.len() > 0 ==> hit_lines(ms).len() > 0 && hit_lines(ms).last() == ms.last().0,
    decreases ms.len(),
{
    if ms.len() > 0 {
        let rest = ms.drop_last();
        lemma_hit_lines_increasing(rest);
        let d = hit_lines(rest);
        let x = ms.last().0;
        let ls = hit_lines(ms);
        if d.len() > 0 && d.last() == x {
            assert(ls == d);
        } else {
            assert(ls == d.push(x));
            if d.len() > 0 {
                assert(rest.last().0 <= x);
                assert(d.last() == rest.last().0);
                assert(d.last() < x);
            }
            assert forall|a: int, b: int| 0 <= a < b < ls.len() implies ls[a] < ls[b] by {
                if b == d.len() {
                    if a < d.len() - 1 {
                        assert(d[a] < d[d.len() - 1]);
                    }
                } else {
                    assert(ls[a] == d[a] && ls[b] == d[b]);
                }
            }
        }
    }
}

} // verus!

verus! {

/// There is one first nearest hit to a line, so picking a line on the minimap makes one
/// definite hit current.
pub proof fn law_nearest_hit_is_unique(ms: Seq<(int, int)>, line: int, i: int, j: int)
    requires
        crate::viewer::is_nearest(ms, line, i),
        crate::viewer::is_nearest(ms, line, j),
    ensures
        i == j,
{
    if i < j {
        assert(crate::viewer::line_dist(ms, i, line) > crate::viewer::line_dist(ms, j, line));
    } else if j < i {
        assert(crate::viewer::line_dist(ms, j, line) > crate::viewer::line_dist(ms, i, line));
    }
}

} // verus!

verus! {

/// Hits with their line numbers moved down by `k`.
pub open spec fn shift_lines(h: Seq<(int, int)>, k: int) -> Seq<(int, int)> {
    h.map_values(|x: (int, int)| (x.0 + k, x.1))
}

proof fn lemma_line_hits_shift(line: Seq<char>, q: Seq<char>, l: int, k: int, i: int)
    ensures
        crate::search::line_hits(line, q, l + k, i) == shift_lines(
            crate::search::line_hits(line, q, l, i),
            k,
        ),
    decreases line.len() - i,
{
    if i < 0 || i >= line.len() || i + q.len() > line.len() {
        assert(shift_lines(crate::search::line_hits(line, q, l, i), k) =~= Seq::<(int, int)>::empty());
    } else {
        lemma_line_hits_shift(line, q, l, k, i + 1);
        assert(crate::search::line_hits(line, q, l + k, i) =~= shift_lines(
            crate::search::line_hits(line, q, l, i),
            k,
        ));
    }
}

/// Searching two lists of lines one after the other finds the hits of the first list, then
/// those of the second with their line numbers moved down by the length of the first.
pub proof fn law_text_hits_concat(a: Seq<Seq<char>>, b: Seq<Seq<char>>, q: Seq<char>)
    ensures
        crate::search::text_hits(a + b, q) == crate::search::text_hits(a, q) + shift_lines(
            crate::search::text_hits(b, q),
            a.len() as int,
        ),
    decreases b.len(),
{
    if b.len() == 0 {
        assert(a + b =~= a);
        assert(shift_lines(crate::search::text_hits(b, q), a.len() as int) =~= Seq::<(int, int)>::empty());
        assert(crate::search::text_hits(a, q) + Seq::<(int, int)>::empty() =~= crate::search::text_hits(a, q));
    } else {
        let bl = b.drop_last();
        law_text_hits_concat(a, bl, q);
        assert((a + b).drop_last() =~= a + bl);
        assert((a + b).last() == b.last());
        let n = b.len() - 1;
        lemma_line_hits_shift(b.last(), q, n, a.len() as int, 0);
        let tb = crate::search::text_hits(b, q);
        assert(tb == crate::search::text_hits(bl, q) + crate::search::line_hits(b.last(), q, n, 0));
        assert(shift_lines(tb, a.len() as int) =~= shift_lines(crate::search::text_hits(bl, q), a.len() as int)
            + shift_lines(crate::search::line_hits(b.last(), q, n, 0), a.len() as int));
        assert(crate::search::text_hits(a + b, q) =~= crate::search::text_hits(a, q) + shift_lines(
            tb,
            a.len() as int,
        ));
    }
}

proof fn lemma_lower_upper(s: Seq<char>)
    ensures
        crate::text::ascii_lower(crate::text::ascii_upper(s)) == crate::text::ascii_lower(s),
{
    assert forall|i: int| 0 <= i < s.len() implies crate::text::lower_char(crate::text::upper_char(s[i]))
        == crate::text::lower_char(s[i]) by {
        let c = s[i];
        if 'a' <= c && c <= 'z' {
            let u = ((c as u32) - 32) as char;
            assert(u as u32 == (c as u32) - 32);
            assert(((u as u32) + 32) as char == c);
        }
    }
    assert(crate::text::ascii_lower(crate::text::ascii_upper(s)) =~= crate::text::ascii_lower(s));
}

proof fn lemma_upper_byte_len(s: Seq<char>)
    ensures
        crate::text::byte_len(crate::text::ascii_upper(s)) == crate::text::byte_len(s),
    decreases s.len(),
{
    if s.len() > 0 {
        let u = crate::text::ascii_upper(s);
        lemma_upper_byte_len(s.drop_first());
        assert(u.drop_first() =~= crate::text::ascii_upper(s.drop_first()));
        let c = s[0];
        if 'a' <= c && c <= 'z' {
            let d = ((c as u32) - 32) as char;
            assert(d as u32 == (c as u32) - 32);
            assert(vstd::utf8::encode_scalar(d as u32).len() == 1);
            assert(vstd::utf8::encode_scalar(c as u32).len() == 1);
        }
        assert(vstd::utf8::encode_scalar(u[0] as u32).len() == vstd::utf8::encode_scalar(
            c as u32,
        ).len());
    }
}

proof fn lemma_line_hits_upper(line: Seq<char>, q: Seq<char>, l: int, i: int)
    ensures
        crate::search::line_hits(crate::text::ascii_upper(line), q, l, i)
            == crate::search::line_hits(line, q, l, i),
    decreases line.len() - i,
{
    let u = crate::text::ascii_upper(line);
    if i < 0 || i >= line.len() || i + q.len() > line.len() {
    } else {
        lemma_line_hits_upper(line, q, l, i + 1);
        lemma_lower_upper(line);
        assert(u.take(i) =~= crate::text::ascii_upper(line.take(i)));
        lemma_upper_byte_len(line.take(i));
    }
}

/// Upper-casing the ASCII letters of every line leaves the text search unchanged: it
/// compares lowercased text, and an ASCII letter keeps its byte width.
pub proof fn law_text_hits_ignore_ascii_case(lines: Seq<Seq<char>>, q: Seq<char>)
    ensures
        crate::search::text_hits(
            lines.map_values(|l: Seq<char>| crate::text::ascii_upper(l)),
            q,
        ) == crate::search::text_hits(lines, q),
    decreases lines.len(),
{
    let up = lines.map_values(|l: Seq<char>| crate::text::ascii_upper(l));
    if lines.len() > 0 {
        law_text_hits_ignore_ascii_case(lines.drop_last(), q);
        assert(up.drop_last() =~= lines.drop_last().map_values(
            |l: Seq<char>| crate::text::ascii_upper(l),
        ));
        lemma_line_hits_upper(lines.last(), q, lines.len() - 1, 0);
    }
}

} // verus!

verus! {

proof fn lemma_contains_prefix(a: Seq<char>, b: Seq<char>, q: Seq<char>)
    requires
        crate::text::contains_seq(crate::text::ascii_lower(a), q),
    ensures
        crate::text::contains_seq(crate::text::ascii_lower(a + b), q),
{
    let la = crate::text::ascii_lower(a);
    let lab = crate::text::ascii_lower(a + b);
    let i = choose|i: int| crate::text::occurs_at(la, q, i);
    assert(lab.subrange(i, i + q.len()) =~= la.subrange(i, i + q.len()));
    assert(crate::text::occurs_at(lab, q, i));
}

/// A node's label starts with its key, and for a value that is neither an object nor an
/// array it is the key, `: ` and the value's one-line text. So a node whose key holds the
/// lowercased query is a tree match, whatever the kind of its value.
pub proof fn law_label_keeps_key(
    key: Seq<char>,
    path: Seq<char>,
    v: crate::json::JsonValue,
    q: Seq<char>,
)
    ensures
        !(v is Object) && !(v is Array) ==> crate::json::label_text(key, v) == key + ": "@
            + crate::json::value_text(v),
        crate::json::label_text(key, v).take(key.len() as int) == key,
        crate::text::contains_seq(crate::text::ascii_lower(key), q) ==> {
            let s = crate::json::scan_node(key, path, v, q);
            &&& s.hit
            &&& s.matches.len() > 0
            &&& s.matches[0] == path
        },
{
    let label = crate::json::label_text(key, v);
    let rest = label.skip(key.len() as int);
    match v {
        crate::json::JsonValue::Object(_) => {
            assert(label == key + ": {}"@);
        },
        crate::json::JsonValue::Array(items) => {
            assert(label == key + (": ["@ + crate::text::decimal(items@.len()) + "]"@));
        },
        _ => {
            assert(label == key + (": "@ + crate::json::value_text(v)));
        },
    }
    assert(label =~= key + rest);
    assert(label.take(key.len() as int) =~= key);
    if crate::text::contains_seq(crate::text::ascii_lower(key), q) {
        lemma_contains_prefix(key, rest, q);
    }
}

} // verus!

verus! {

proof fn lemma_byte_len_mono(s: Seq<char>, i: int, j: int)
    requires
        0 <= i <= j <= s.len(),
    ensures
        crate::text::byte_len(s.take(i)) <= crate::text::byte_len(s.take(j)),
{
    if i < j {
        lemma_byte_len_grows(s, i, j);
    }
}

proof fn lemma_hit_segments_active(
    line: Seq<char>,
    q: Seq<char>,
    l: int,
    active: Option<crate::search::TextMatch>,
    start: int,
)
    requires
        q.len() > 0,
        0 <= start <= line.len(),
    ensures
        ({
            let segs = crate::search::hit_segments(line, q, l, active, start);
            &&& forall|k: int|
                0 <= k < segs.len() && #[trigger] segs[k].1 == crate::search::SegmentKind::ActiveHit
                    ==> (active matches Some(m) && m.line == l && m.column >= crate::text::byte_len(
                    line.take(start),
                ))
            &&& forall|i: int, j: int|
                0 <= i < j < segs.len() ==> !(#[trigger] segs[i].1
                    == crate::search::SegmentKind::ActiveHit && #[trigger] segs[j].1
                    == crate::search::SegmentKind::ActiveHit)
        }),
    decreases line.len() - start,
{
    let lc = crate::text::ascii_lower(line);
    let segs = crate::search::hit_segments(line, q, l, active, start);
    crate::search::lemma_next_occ(lc, q, start);
    match crate::search::next_occ(lc, q, start) {
        None => {},
        Some(p) => {
            let c = crate::text::byte_len(line.take(p)) as int;
            let piece = if p > start {
                seq![(line.subrange(start, p), crate::search::SegmentKind::Plain)]
            } else {
                seq![]
            };
            let hit = seq![
                (line.subrange(p, p + q.len()), crate::search::hit_kind(active, l, c)),
            ];
            let rest = crate::search::hit_segments(line, q, l, active, p + q.len());
            lemma_hit_segments_active(line, q, l, active, p + q.len());
            lemma_byte_len_mono(line, start, p);
            lemma_byte_len_grows(line, p, p + q.len());
            assert(segs == piece + hit + rest);
            let h = piece.len();
            assert forall|k: int|
                0 <= k < segs.len() && #[trigger] segs[k].1 == crate::search::SegmentKind::ActiveHit
                    implies (active matches Some(m) && m.line == l && m.column
                    >= crate::text::byte_len(line.take(start))) by {
                if k < h {
                    assert(segs[k] == piece[k]);
                } else if k == h {
                    assert(segs[k] == hit[0]);
                } else {
                    assert(segs[k] == rest[k - h - 1]);
                    assert(rest[k - h - 1].1 == crate::search::SegmentKind::ActiveHit);
                }
            }
            assert forall|i: int, j: int| 0 <= i < j < segs.len() implies !(#[trigger] segs[i].1
                == crate::search::SegmentKind::ActiveHit && #[trigger] segs[j].1
                == crate::search::SegmentKind::ActiveHit) by {
                if segs[i].1 == crate::search::SegmentKind::ActiveHit && segs[j].1
                    == crate::search::SegmentKind::ActiveHit {
                    if i < h {
                        assert(segs[i] == piece[i]);
                    } else if i == h {
                        assert(segs[j] == rest[j - h - 1]);
                        assert(rest[j - h - 1].1 == crate::search::SegmentKind::ActiveHit);
                        assert(segs[i] == hit[0]);
                    } else {
                        assert(segs[i] == rest[i - h - 1]);
                        assert(segs[j] == rest[j - h - 1]);
                    }
                }
            }
        },
    }
}

/// A segment of line `l` is shown as the current hit only when the current match lies on
/// line `l`; and a line shows at most one current hit.
pub proof fn law_active_hit_on_its_line(
    line: Seq<char>,
    l: int,
    query: Option<Seq<char>>,
    active: Option<crate::search::TextMatch>,
    listed: bool,
)
    ensures
        ({
            let segs = crate::search::line_segments_spec(line, l, query, active, listed);
            &&& forall|k: int|
                0 <= k < segs.len() && #[trigger] segs[k].1 == crate::search::SegmentKind::ActiveHit
                    ==> (active matches Some(m) && m.line == l)
            &&& forall|i: int, j: int|
                0 <= i < j < segs.len() ==> !(#[trigger] segs[i].1
                    == crate::search::SegmentKind::ActiveHit && #[trigger] segs[j].1
                    == crate::search::SegmentKind::ActiveHit)
        }),
{
    if let Some(q) = query {
        if q.len() > 0 && listed {
            lemma_hit_segments_active(line, q, l, active, 0);
        }
    }
}

} // verus!

verus! {

/// The number shown for a current match: its place counted from one, or zero without one.
pub open spec fn shown_place(active: Option<int>) -> nat {
    match active {
        Some(a) => (a + 1) as nat,
        None => 0,
    }
}

/// With a query, the search summary reads `Tree i/n | Text j/m (...)`, where `n` is the number
/// of tree matches, `m` the number of text hits, and `i` and `j` the places of the current
/// ones (zero without one); without a query there is no summary.
pub proof fn law_summary_counts(m: crate::viewer::AppModel)
    requires
        m.active_tree matches Some(a) ==> a >= 0,
        m.active_text matches Some(a) ==> a >= 0,
    ensures
        crate::search::normalized(m.query) is None ==> crate::viewer::summary(m) is None,
        crate::search::normalized(m.query) is Some ==> crate::viewer::summary(m) == Some(
            "Tree "@ + crate::text::decimal(shown_place(m.active_tree)) + "/"@ + crate::text::decimal(
                m.tree_matches.len(),
            ) + " | Text "@ + crate::text::decimal(shown_place(m.active_text)) + "/"@
                + crate::text::decimal(m.text_matches.len())
                + " (Enter/F3 next, Shift+Enter/F3 prev)"@,
        ),
{
    reveal_strlit("Tree ");
    reveal_strlit("Tree 0/");
    reveal_strlit("/");
    reveal_strlit(" | ");
    reveal_strlit(" | Text ");
    reveal_strlit("Text ");
    reveal_strlit("Text 0/");
    assert(crate::text::decimal(0) == seq![crate::text::digit_char(0)]);
    assert(crate::text::digit_char(0) == '0');
    let tree_part = match m.active_tree {
        Some(a) => "Tree "@ + crate::text::decimal((a + 1) as nat) + "/"@ + crate::text::decimal(
            m.tree_matches.len(),
        ),
        None => "Tree 0/"@ + crate::text::decimal(m.tree_matches.len()),
    };
    let text_part = match m.active_text {
        Some(a) => "Text "@ + crate::text::decimal((a + 1) as nat) + "/"@ + crate::text::decimal(
            m.text_matches.len(),
        ),
        None => "Text 0/"@ + crate::text::decimal(m.text_matches.len()),
    };
    assert(tree_part =~= "Tree "@ + crate::text::decimal(shown_place(m.active_tree)) + "/"@
        + crate::text::decimal(m.tree_matches.len()));
    assert(" | "@ + text_part =~= " | Text "@ + crate::text::decimal(shown_place(m.active_text))
        + "/"@ + crate::text::decimal(m.text_matches.len()));
    if crate::search::normalized(m.query) is Some {
        assert(crate::viewer::summary_text(m) =~= "Tree "@ + crate::text::decimal(
            shown_place(m.active_tree),
        ) + "/"@ + crate::text::decimal(m.tree_matches.len()) + " | Text "@ + crate::text::decimal(
            shown_place(m.active_text),
        ) + "/"@ + crate::text::decimal(m.text_matches.len())
            + " (Enter/F3 next, Shift+Enter/F3 prev)"@);
    }
}

} // verus!

verus! {

/// `%20` stands in `s` at position `i`.
pub open spec fn percent_twenty_at(s: Seq<char>, i: int) -> bool {
    0 <= i && i + 2 < s.len() && s[i] == '%' && s[i + 1] == '2' && s[i + 2] == '0'
}

/// Only `%20` is decoded: a text without `%20` comes back unchanged, and each `%20` that
/// leads the text becomes one space before the rest, decoded.
pub proof fn law_only_percent_twenty_decoded(s: Seq<char>)
    ensures
        (forall|i: int| !#[trigger] percent_twenty_at(s, i))
            ==> crate::startup::decode_spaces(s) == s,
        percent_twenty_at(s, 0) ==> crate::startup::decode_spaces(s) == seq![' ']
            + crate::startup::decode_spaces(s.skip(3)),
        s.len() > 0 && !percent_twenty_at(s, 0) ==> crate::startup::decode_spaces(s) == seq![s[0]]
            + crate::startup::decode_spaces(s.drop_first()),
    decreases s.len(),
{
    if s.len() > 0 {
        let t = s.drop_first();
        law_only_percent_twenty_decoded(t);
        if forall|i: int| !#[trigger] percent_twenty_at(s, i) {
            assert forall|i: int| !#[trigger] percent_twenty_at(t, i) by {
                if percent_twenty_at(t, i) {
                    assert(percent_twenty_at(s, i + 1));
                }
            }
            assert(!percent_twenty_at(s, 0));
            assert(seq![s[0]] + t =~= s);
        }
    } else {
        assert(crate::startup::decode_spaces(s) =~= s);
    }
}

/// The text after `file://`, without its leading slashes on Windows.
pub open spec fn url_body(arg: Seq<char>, windows: bool) -> Seq<char> {
    let raw = arg.skip("file://"@.len() as int);
    if windows {
        crate::startup::strip_slashes(raw)
    } else {
        raw
    }
}

/// A `file://` argument without `%20` after its prefix names exactly the text after
/// `file://` (without its leading slashes on Windows): every other character, `+` included,
/// is kept.
pub proof fn law_file_url_keeps_other_characters(arg: Seq<char>, windows: bool)
    requires
        crate::text::occurs_at(arg, "file://"@, 0),
        forall|i: int| !#[trigger] percent_twenty_at(url_body(arg, windows), i),
    ensures
        crate::startup::file_url_target(arg, windows) == Some(url_body(arg, windows)),
{
    law_only_percent_twenty_decoded(url_body(arg, windows));
}

} // verus!

verus! {

/// Going to the next match moves the current match of the shown view one place on, from
/// the last back to the first; going to the previous one moves it one place back, from the
/// first to the last. Without a current match the step starts from the first. The view
/// scrolls to the new current match.
pub proof fn law_advance_steps(m: AppModel)
    requires
        m.wf(),
    ensures
        m.tab == ViewTab::Tree && m.tree_matches.len() > 0 ==> {
            let n = m.tree_matches.len() as int;
            let i = match m.active_tree {
                Some(a) => a,
                None => 0,
            };
            let f = advanced(m, false);
            let b = advanced(m, true);
            &&& f.active_tree == Some((i + 1) % n)
            &&& f.scroll_tree == Some(m.tree_matches[(i + 1) % n])
            &&& b.active_tree == Some(if i == 0 { n - 1 } else { i - 1 })
            &&& b.scroll_tree == Some(m.tree_matches[if i == 0 { n - 1 } else { i - 1 }])
            &&& f.active_text == m.active_text && b.active_text == m.active_text
        },
        m.tab == ViewTab::Text && m.text_matches.len() > 0 ==> {
            let n = m.text_matches.len() as int;
            let i = match m.active_text {
                Some(a) => a,
                None => 0,
            };
            let f = advanced(m, false);
            let b = advanced(m, true);
            &&& f.active_text == Some((i + 1) % n)
            &&& f.scroll_line == Some(m.text_matches[(i + 1) % n].0)
            &&& b.active_text == Some(if i == 0 { n - 1 } else { i - 1 })
            &&& b.scroll_line == Some(m.text_matches[if i == 0 { n - 1 } else { i - 1 }].0)
            &&& f.active_tree == m.active_tree && b.active_tree == m.active_tree
        },
{
}

} // verus!

verus! {

proof fn lemma_hit_segments_placed(
    line: Seq<char>,
    q: Seq<char>,
    l: int,
    active: Option<crate::search::TextMatch>,
    start: int,
)
    requires
        q.len() > 0,
        0 <= start <= line.len(),
    ensures
        ({
            let segs = crate::search::hit_segments(line, q, l, active, start);
            forall|k: int|
                0 <= k < segs.len() && #[trigger] segs[k].1 != crate::search::SegmentKind::Plain
                    ==> exists|p: int|
                    start <= p && crate::text::occurs_at(crate::text::ascii_lower(line), q, p)
                        && #[trigger] line.take(p) == line.take(start) + segments_text(segs.take(k))
                        && segs[k] == (
                        line.subrange(p, p + q.len()),
                        crate::search::hit_kind(active, l, crate::text::byte_len(line.take(p)) as int),
                    )
        }),
    decreases line.len() - start,
{
    let lc = crate::text::ascii_lower(line);
    let segs = crate::search::hit_segments(line, q, l, active, start);
    crate::search::lemma_next_occ(lc, q, start);
    match crate::search::next_occ(lc, q, start) {
        None => {
            assert forall|k: int| 0 <= k < segs.len() implies #[trigger] segs[k].1
                == crate::search::SegmentKind::Plain by {}
        },
        Some(p) => {
            let piece = if p > start {
                seq![(line.subrange(start, p), crate::search::SegmentKind::Plain)]
            } else {
                seq![]
            };
            let hit = seq![
                (
                    line.subrange(p, p + q.len()),
                    crate::search::hit_kind(active, l, crate::text::byte_len(line.take(p)) as int),
                ),
            ];
            let rest = crate::search::hit_segments(line, q, l, active, p + q.len());
            lemma_hit_segments_placed(line, q, l, active, p + q.len());
            assert(segs == piece + hit + rest);
            let h = piece.len() as int;
            if p > start {
                lemma_segments_text_one(piece[0]);
            } else {
                assert(segments_text(piece) =~= Seq::<char>::empty());
            }
            lemma_segments_text_one(hit[0]);
            assert(line.take(start) + segments_text(piece) =~= line.take(p));
            assert forall|k: int|
                0 <= k < segs.len() && #[trigger] segs[k].1 != crate::search::SegmentKind::Plain
                    implies exists|x: int|
                    start <= x && crate::text::occurs_at(lc, q, x) && #[trigger] line.take(x)
                        == line.take(start) + segments_text(segs.take(k)) && segs[k] == (
                        line.subrange(x, x + q.len()),
                        crate::search::hit_kind(active, l, crate::text::byte_len(line.take(x)) as int),
                    ) by {
                if k < h {
                    assert(segs[k] == piece[k]);
                } else if k == h {
                    assert(segs.take(k) =~= piece);
                    assert(segs[k] == hit[0]);
                    assert(line.take(p) == line.take(start) + segments_text(segs.take(k)));
                } else {
                    let k2 = k - h - 1;
                    assert(segs[k] == rest[k2]);
                    assert(rest[k2].1 != crate::search::SegmentKind::Plain);
                    let x = choose|x: int|
                        p + q.len() <= x && crate::text::occurs_at(lc, q, x) && #[trigger] line.take(x)
                            == line.take(p + q.len()) + segments_text(rest.take(k2)) && rest[k2] == (
                            line.subrange(x, x + q.len()),
                            crate::search::hit_kind(
                                active,
                                l,
                                crate::text::byte_len(line.take(x)) as int,
                            ),
                        );
                    assert(segs.take(k) =~= (piece + hit) + rest.take(k2));
                    lemma_segments_text_concat(piece + hit, rest.take(k2));
                    lemma_segments_text_concat(piece, hit);
                    assert(line.take(p) + line.subrange(p, p + q.len()) =~= line.take(p + q.len()));
                    assert(line.take(x) =~= line.take(start) + segments_text(segs.take(k)));
                }
            }
        },
    }
}

/// A hit segment of line `l` is shown as the current hit exactly when the current match lies
/// on line `l` at the hit's byte column, which is the byte length of the text before it;
/// and every hit segment is the query, up to ASCII case.
pub proof fn law_active_hit_is_the_current_match(
    line: Seq<char>,
    l: int,
    q: Seq<char>,
    active: Option<crate::search::TextMatch>,
)
    requires
        q.len() > 0,
    ensures
        ({
            let segs = crate::search::line_segments_spec(line, l, Some(q), active, true);
            forall|k: int|
                0 <= k < segs.len() && #[trigger] segs[k].1 != crate::search::SegmentKind::Plain
                    ==> {
                    &&& crate::text::ascii_lower(segs[k].0) == q
                    &&& (segs[k].1 == crate::search::SegmentKind::ActiveHit <==> (active matches Some(
                        m,
                    ) && m.line == l && m.column == crate::text::byte_len(
                        segments_text(segs.take(k)),
                    )))
                }
        }),
{
    let segs = crate::search::line_segments_spec(line, l, Some(q), active, true);
    lemma_hit_segments_placed(line, q, l, active, 0);
    assert forall|k: int|
        0 <= k < segs.len() && #[trigger] segs[k].1 != crate::search::SegmentKind::Plain implies {
            &&& crate::text::ascii_lower(segs[k].0) == q
            &&& (segs[k].1 == crate::search::SegmentKind::ActiveHit <==> (active matches Some(m)
                && m.line == l && m.column == crate::text::byte_len(segments_text(segs.take(k)))))
        } by {
        let p = choose|p: int|
            0 <= p && crate::text::occurs_at(crate::text::ascii_lower(line), q, p) && #[trigger] line.take(p)
                == line.take(0) + segments_text(segs.take(k)) && segs[k] == (
                line.subrange(p, p + q.len()),
                crate::search::hit_kind(active, l, crate::text::byte_len(line.take(p)) as int),
            );
        assert(line.take(0) + segments_text(segs.take(k)) =~= segments_text(segs.take(k)));
        assert(crate::text::ascii_lower(line.subrange(p, p + q.len())) =~= crate::text::ascii_lower(
            line,
        ).subrange(p, p + q.len()));
    }
}

} // verus!

verus! {

/// The label of an object is `key: {}`, of an array of `n` items `key: [n]`; the one-line
/// text of a string is its `Debug` form, of a number its text, of a boolean `true` or
/// `false`, of null `null`, and of an array or object `<nested>`.
pub proof fn law_label_and_text_by_kind(key: Seq<char>, v: crate::json::JsonValue)
    ensures
        v is Object ==> crate::json::label_text(key, v) == key + ": {}"@,
        v matches crate::json::JsonValue::Array(items) ==> crate::json::label_text(key, v) == key
            + ": ["@ + crate::text::decimal(items@.len()) + "]"@,
        v matches crate::json::JsonValue::String(s) ==> crate::json::value_text(v)
            == crate::json::str_debug(s@),
        v matches crate::json::JsonValue::Number(t, _) ==> crate::json::value_text(v) == t@,
        v == crate::json::JsonValue::Bool(true) ==> crate::json::value_text(v) == "true"@,
        v == crate::json::JsonValue::Bool(false) ==> crate::json::value_text(v) == "false"@,
        v is Null ==> crate::json::value_text(v) == "null"@,
        v is Array || v is Object ==> crate::json::value_text(v) == "<nested>"@,
{
}

/// On Windows only leading slashes are dropped: the rest is kept, and it does not start
/// with a slash.
pub proof fn law_strip_slashes(s: Seq<char>)
    ensures
        exists|k: int|
            0 <= k <= s.len() && crate::startup::strip_slashes(s) == s.skip(k) && (forall|i: int|
                0 <= i < k ==> s[i] == '/'),
        crate::startup::strip_slashes(s).len() > 0 ==> crate::startup::strip_slashes(s)[0] != '/',
    decreases s.len(),
{
    if s.len() > 0 && s[0] == '/' {
        let t = s.drop_first();
        law_strip_slashes(t);
        let k = choose|k: int|
            0 <= k <= t.len() && crate::startup::strip_slashes(t) == t.skip(k) && (forall|i: int|
                0 <= i < k ==> t[i] == '/');
        assert(t.skip(k) =~= s.skip(k + 1));
        assert forall|i: int| 0 <= i < k + 1 implies s[i] == '/' by {
            if i > 0 {
                assert(s[i] == t[i - 1]);
            }
        }
    } else {
        assert(s.skip(0) =~= s);
    }
}

/// Going to the next match says which match it went to, counted from one, out of how many;
/// in the text view also on which line and byte column, both counted from one.
pub proof fn law_advance_status(m: AppModel)
    requires
        m.wf(),
    ensures
        m.tab == ViewTab::Tree && m.tree_matches.len() > 0 ==> {
            let n = m.tree_matches.len() as int;
            let i = match m.active_tree {
                Some(a) => a,
                None => 0,
            };
            advanced(m, false).status == "Tree match "@ + crate::text::decimal(
                ((i + 1) % n + 1) as nat,
            ) + "/"@ + crate::text::decimal(n as nat)
        },
        m.tab == ViewTab::Text && m.text_matches.len() > 0 ==> {
            let n = m.text_matches.len() as int;
            let i = match m.active_text {
                Some(a) => a,
                None => 0,
            };
            let h = m.text_matches[(i + 1) % n];
            advanced(m, false).status == "Text match "@ + crate::text::decimal(
                ((i + 1) % n + 1) as nat,
            ) + "/"@ + crate::text::decimal(n as nat) + " at line "@ + crate::text::decimal(
                (h.0 + 1) as nat,
            ) + ", column "@ + crate::text::decimal((h.1 + 1) as nat)
        },
        m.tab == ViewTab::Tree && m.tree_matches.len() == 0 ==> advanced(m, false).status
            == "No tree matches for '"@ + crate::text::trim(m.query) + "'."@,
        m.tab == ViewTab::Text && m.text_matches.len() == 0 ==> advanced(m, false).status
            == "No text matches for '"@ + crate::text::trim(m.query) + "'."@,
{
}

} // verus!
