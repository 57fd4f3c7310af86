use vstd::prelude::*;
use crate::json::{JsonValue, preview_text, read_view, scan_node, shown_json, strings_view};
use crate::search::{
    TextMatch, lines_of, match_pairs, ring_step, normalized, opt_view, string_views, text_hits,
    text_search_ok,
};
use crate::text::trim;

verus! {

/// The view the viewer shows.
#[derive(Clone, Copy, Debug, PartialEq, Eq, Structural)]
pub enum ViewTab {
    Tree,
    Text,
}

/// Everything the viewer knows: the loaded document, its formatted lines, the search and
/// its results, and what is selected or to be scrolled to.
pub struct JviewsonApp {
    tab: ViewTab,
    search_query: String,
    auto_reload: bool,
    current_file: Option<String>,
    json_value: Option<JsonValue>,
    pretty_json: String,
    pretty_lines: Vec<String>,
    parse_error: Option<String>,
    status_message: String,
    last_modified_time: Option<i128>,
    tree_match_paths: Vec<String>,
    tree_open_paths: Vec<String>,
    active_tree_match: Option<usize>,
    active_text_match: Option<usize>,
    text_hits: TextHits,
    scroll_to_tree_path: Option<String>,
    scroll_to_text_line: Option<usize>,
    selected_tree_path: Option<String>,
    selected_tree_preview: String,
}

/// The hits of the search in the formatted lines, and the lines that hold one.
struct TextHits {
    matches: Vec<TextMatch>,
    lines: Vec<usize>,
}

/// No hits.
fn no_hits() -> (h: TextHits)
    ensures
        match_pairs(h.matches@) == Seq::<(int, int)>::empty(),
        h.lines@.map_values(|l: usize| l as int) == Seq::<int>::empty(),
        hit_lines(match_pairs(h.matches@)) == h.lines@.map_values(|l: usize| l as int),
{
    let h = TextHits { matches: Vec::new(), lines: Vec::new() };
    assert(match_pairs(h.matches@) =~= Seq::<(int, int)>::empty());
    assert(h.lines@.map_values(|l: usize| l as int) =~= Seq::<int>::empty());
    h
}

/// The state of the viewer as mathematical values.
#[verifier::ext_equal]
pub struct AppModel {
    pub tab: ViewTab,
    pub query: Seq<char>,
    pub auto_reload: bool,
    pub current_file: Option<Seq<char>>,
    pub json: Option<JsonValue>,
    pub pretty: Seq<char>,
    pub lines: Seq<Seq<char>>,
    pub parse_error: Option<Seq<char>>,
    pub status: Seq<char>,
    /// When the loaded file was last modified, in nanoseconds from the Unix epoch.
    pub last_modified: Option<i128>,
    /// The paths of the tree nodes whose label holds the query, in pre-order.
    pub tree_matches: Seq<Seq<char>>,
    /// The paths of the tree nodes to be shown open: those whose subtree holds a match.
    pub tree_open: Seq<Seq<char>>,
    pub active_tree: Option<int>,
    pub active_text: Option<int>,
    /// The hits of the query in the formatted lines, as (line, byte column).
    pub text_matches: Seq<(int, int)>,
    /// The lines that hold a hit, each once, in increasing order.
    pub match_lines: Seq<int>,
    pub scroll_tree: Option<Seq<char>>,
    pub scroll_line: Option<int>,
    pub selected_path: Option<Seq<char>>,
    pub preview: Seq<char>,
}

/// An optional index as an integer.
pub open spec fn opt_int(o: Option<usize>) -> Option<int> {
    match o {
        Some(i) => Some(i as int),
        None => None,
    }
}

/// The lines of a sequence of hits, each once, in the order in which they first appear.
pub open spec fn hit_lines(ms: Seq<(int, int)>) -> Seq<int>
    decreases ms.len(),
{
    if ms.len() == 0 {
        seq![]
    } else {
        let d = hit_lines(ms.drop_last());
        let l = ms.last().0;
        if d.len() > 0 && d.last() == l {
            d
        } else {
            d.push(l)
        }
    }
}

impl View for JviewsonApp {
    type V = AppModel;

    closed spec fn view(&self) -> AppModel {
        AppModel {
            tab: self.tab,
            query: self.search_query@,
            auto_reload: self.auto_reload,
            current_file: opt_view(self.current_file),
            json: self.json_value,
            pretty: self.pretty_json@,
            lines: string_views(self.pretty_lines@),
            parse_error: opt_view(self.parse_error),
            status: self.status_message@,
            last_modified: self.last_modified_time,
            tree_matches: strings_view(self.tree_match_paths@),
            tree_open: strings_view(self.tree_open_paths@),
            active_tree: opt_int(self.active_tree_match),
            active_text: opt_int(self.active_text_match),
            text_matches: match_pairs(self.text_hits.matches@),
            match_lines: self.text_hits.lines@.map_values(|l: usize| l as int),
            scroll_tree: opt_view(self.scroll_to_tree_path),
            scroll_line: opt_int(self.scroll_to_text_line),
            selected_path: opt_view(self.selected_tree_path),
            preview: self.selected_tree_preview@,
        }
    }
}

impl JviewsonApp {
    /// Every viewer keeps its model well formed.
    #[verifier::type_invariant]
    spec fn well_formed(self) -> bool {
        self@.wf()
    }
}

impl AppModel {
    /// What every operation keeps: a current match points into its list, and the lines with
    /// a hit are those of the text hits.
    pub open spec fn wf(self) -> bool {
        &&& self.active_tree matches Some(i) ==> 0 <= i < self.tree_matches.len()
        &&& self.active_text matches Some(i) ==> 0 <= i < self.text_matches.len()
        &&& self.match_lines == hit_lines(self.text_matches)
    }

    /// The state with the search results cleared.
    pub open spec fn cleared(self) -> AppModel {
        AppModel {
            tree_matches: seq![],
            tree_open: seq![],
            active_tree: None,
            active_text: None,
            text_matches: seq![],
            match_lines: seq![],
            scroll_tree: None,
            scroll_line: None,
            ..self
        }
    }
}

/// The state of a freshly started viewer.
pub open spec fn initial_model() -> AppModel {
    AppModel {
        tab: ViewTab::Tree,
        query: seq![],
        auto_reload: false,
        current_file: None,
        json: None,
        pretty: seq![],
        lines: seq![],
        parse_error: None,
        status: "Open a JSON file to start."@,
        last_modified: None,
        tree_matches: seq![],
        tree_open: seq![],
        active_tree: None,
        active_text: None,
        text_matches: seq![],
        match_lines: seq![],
        scroll_tree: None,
        scroll_line: None,
        selected_path: None,
        preview: seq![],
    }
}

impl JviewsonApp {
    /// A viewer with nothing loaded.
    pub fn new() -> (app: JviewsonApp)
        ensures
            app@ == initial_model(),
            app@.wf(),
    {
        let hits = no_hits();
        let app = JviewsonApp {
            tab: ViewTab::Tree,
            search_query: String::new(),
            auto_reload: false,
            current_file: None,
            json_value: None,
            pretty_json: String::new(),
            pretty_lines: Vec::new(),
            parse_error: None,
            status_message: String::from_str("Open a JSON file to start."),
            last_modified_time: None,
            tree_match_paths: Vec::new(),
            tree_open_paths: Vec::new(),
            active_tree_match: None,
            active_text_match: None,
            text_hits: hits,
            scroll_to_tree_path: None,
            scroll_to_text_line: None,
            selected_tree_path: None,
            selected_tree_preview: String::new(),
        };
        assert(app@ =~= initial_model());
        app
    }

    /// Drops the search results.
    pub fn clear_search_index(&mut self)
        ensures
            final(self)@ == old(self)@.cleared(),
    {
        proof {
            use_type_invariant(&*self);
        }
        self.active_tree_match = None;
        self.active_text_match = None;
        self.tree_match_paths = Vec::new();
        self.tree_open_paths = Vec::new();
        self.text_hits = no_hits();
        self.scroll_to_tree_path = None;
        self.scroll_to_text_line = None;
        assert(self@ =~= old(self)@.cleared());
    }
}

} // verus!

verus! {

/// The state after the search was run again on the current query: the tree and text hits
/// of the normalized query, the first of each made current and scrolled to, and a status
/// message when there is no hit at all. Without a query the results are just cleared.
pub open spec fn rebuilt(m: AppModel) -> AppModel {
    let c = m.cleared();
    match normalized(m.query) {
        None => c,
        Some(q) => {
            let found = match m.json {
                Some(v) => scan_node("root"@, "$"@, v, q).matches,
                None => seq![],
            };
            let open = match m.json {
                Some(v) => scan_node("root"@, "$"@, v, q).opened,
                None => seq![],
            };
            let hits = text_hits(m.lines, q);
            AppModel {
                tree_matches: found,
                tree_open: open,
                active_tree: if found.len() > 0 {
                    Some(0)
                } else {
                    None
                },
                scroll_tree: if found.len() > 0 {
                    Some(found[0])
                } else {
                    None
                },
                text_matches: hits,
                match_lines: hit_lines(hits),
                active_text: if hits.len() > 0 {
                    Some(0)
                } else {
                    None
                },
                scroll_line: if hits.len() > 0 {
                    Some(hits[0].0)
                } else {
                    None
                },
                status: if found.len() == 0 && hits.len() == 0 {
                    "No matches for '"@ + trim(m.query) + "'."@
                } else {
                    m.status
                },
                ..c
            }
        },
    }
}

/// The states in which the text search of the current query runs to its end.
pub open spec fn search_ok(m: AppModel) -> bool {
    search_ok_on(m.query, m.lines)
}

/// The text search of the normalized `query` runs to its end on `lines`.
pub open spec fn search_ok_on(query: Seq<char>, lines: Seq<Seq<char>>) -> bool {
    match normalized(query) {
        Some(q) => text_search_ok(lines, q),
        None => true,
    }
}

/// The lines that hold a hit, each once.
fn lines_with_hits(ms: &Vec<TextMatch>) -> (lines: Vec<usize>)
    ensures
        lines@.map_values(|l: usize| l as int) == hit_lines(match_pairs(ms@)),
{
    let mut lines: Vec<usize> = Vec::new();
    let mut i: usize = 0;
    assert(match_pairs(ms@).take(0) =~= Seq::<(int, int)>::empty());
    while i < ms.len()
        invariant
            i <= ms@.len(),
            lines@.map_values(|l: usize| l as int) == hit_lines(match_pairs(ms@).take(i as int)),
        decreases ms@.len() - i,
    {
        let l = ms[i].line;
        let ghost before = lines@.map_values(|l: usize| l as int);
        let n = lines.len();
        assert(match_pairs(ms@).take(i + 1).drop_last() =~= match_pairs(ms@).take(i as int));
        if n > 0 && lines[n - 1] == l {
            assert(before.last() == l as int);
        } else {
            lines.push(l);
            assert(lines@.map_values(|l: usize| l as int) =~= before.push(l as int));
        }
        i += 1;
    }
    assert(match_pairs(ms@).take(ms@.len() as int) =~= match_pairs(ms@));
    lines
}

impl JviewsonApp {
    /// Runs the search again on the current query.
    pub fn rebuild_search_index(&mut self)
        requires
            search_ok(old(self)@),
        ensures
            final(self)@ == rebuilt(old(self)@),
            final(self)@.wf(),
    {
        proof {
            use_type_invariant(&*self);
        }
        let ghost m = self@;
        self.clear_search_index();
        let q = match crate::search::normalized_query(self.search_query.as_str()) {
            Some(q) => q,
            None => {
                assert(self@ == rebuilt(m));
                return;
            },
        };
        assert(normalized(m.query) == Some(q@));
        let mut tree_paths: Vec<String> = Vec::new();
        let mut open_paths: Vec<String> = Vec::new();
        match &self.json_value {
            Some(json) => {
                crate::json::collect_tree_matches(
                    "root",
                    "$",
                    json,
                    q.as_str(),
                    &mut tree_paths,
                    &mut open_paths,
                );
            },
            None => {},
        }
        assert(strings_view(tree_paths@) =~= match m.json {
            Some(v) => scan_node("root"@, "$"@, v, q@).matches,
            None => seq![],
        });
        assert(strings_view(open_paths@) =~= match m.json {
            Some(v) => scan_node("root"@, "$"@, v, q@).opened,
            None => seq![],
        });
        self.tree_match_paths = tree_paths;
        self.tree_open_paths = open_paths;
        let matches = crate::search::collect_text_matches(self.pretty_lines.as_slice(), q.as_str());
        let lines = lines_with_hits(&matches);
        self.text_hits = TextHits { matches, lines };
        if self.tree_match_paths.len() > 0 {
            self.active_tree_match = Some(0);
            self.scroll_to_tree_path = Some(self.tree_match_paths[0].clone());
        }
        if self.text_hits.matches.len() > 0 {
            self.active_text_match = Some(0);
            self.scroll_to_text_line = Some(self.text_hits.matches[0].line);
        }
        if self.tree_match_paths.len() == 0 && self.text_hits.matches.len() == 0 {
            self.status_message = no_matches_message("No matches for '", self.search_query.as_str());
        }
        assert(self@ =~= rebuilt(m));
    }
}

} // verus!

verus! {

/// The position a step starts from: the current match, or the first.
pub open spec fn start_of(active: Option<int>) -> int {
    match active {
        Some(i) => i,
        None => 0,
    }
}

/// The state after stepping to the next (or previous) match of the shown view, with a
/// status message that says where the step went, or that there is no match.
pub open spec fn advanced(m: AppModel, backwards: bool) -> AppModel {
    match m.tab {
        ViewTab::Tree => if m.tree_matches.len() == 0 {
            AppModel { status: "No tree matches for '"@ + trim(m.query) + "'."@, ..m }
        } else {
            let total = m.tree_matches.len() as int;
            let next = ring_step(start_of(m.active_tree), total, backwards);
            AppModel {
                active_tree: Some(next),
                scroll_tree: Some(m.tree_matches[next]),
                status: "Tree match "@ + crate::text::decimal((next + 1) as nat) + "/"@
                    + crate::text::decimal(total as nat),
                ..m
            }
        },
        ViewTab::Text => if m.text_matches.len() == 0 {
            AppModel { status: "No text matches for '"@ + trim(m.query) + "'."@, ..m }
        } else {
            let total = m.text_matches.len() as int;
            let next = ring_step(start_of(m.active_text), total, backwards);
            let hit = m.text_matches[next];
            AppModel {
                active_text: Some(next),
                scroll_line: Some(hit.0),
                status: "Text match "@ + crate::text::decimal((next + 1) as nat) + "/"@
                    + crate::text::decimal(total as nat) + " at line "@ + crate::text::decimal(
                    (hit.0 + 1) as nat,
                ) + ", column "@ + crate::text::decimal((hit.1 + 1) as nat),
                ..m
            }
        },
    }
}

/// The message that the shown view holds no match for the query.
fn no_matches_message(prefix: &str, query: &str) -> (out: String)
    ensures
        out@ == prefix@ + trim(query@) + "'."@,
{
    let mut msg = String::from_str(prefix);
    let t = crate::text::trim_chars(query);
    let ts = crate::text::string_from_chars(t.as_slice());
    msg.append(ts.as_str());
    msg.append("'.");
    msg
}

impl JviewsonApp {
    /// Steps to the next match of the shown view, or to the previous one.
    pub fn advance_match(&mut self, backwards: bool)
        ensures
            final(self)@ == advanced(old(self)@, backwards),
            final(self)@.wf(),
    {
        proof {
            use_type_invariant(&*self);
        }
        let ghost m = self@;
        match self.tab {
            ViewTab::Tree => {
                if self.tree_match_paths.len() == 0 {
                    self.status_message = no_matches_message(
                        "No tree matches for '",
                        self.search_query.as_str(),
                    );
                    assert(self@ =~= advanced(m, backwards));
                    return;
                }
                let total = self.tree_match_paths.len();
                let current = match self.active_tree_match {
                    Some(i) => i,
                    None => 0,
                };
                let next = crate::search::next_index(current, total, backwards);
                self.active_tree_match = Some(next);
                self.scroll_to_tree_path = Some(self.tree_match_paths[next].clone());
                let mut msg = String::from_str("Tree match ");
                crate::text::push_decimal(&mut msg, next as u128 + 1);
                msg.append("/");
                crate::text::push_decimal(&mut msg, total as u128);
                self.status_message = msg;
                assert(self@ =~= advanced(m, backwards));
            },
            ViewTab::Text => {
                if self.text_hits.matches.len() == 0 {
                    self.status_message = no_matches_message(
                        "No text matches for '",
                        self.search_query.as_str(),
                    );
                    assert(self@ =~= advanced(m, backwards));
                    return;
                }
                let total = self.text_hits.matches.len();
                let current = match self.active_text_match {
                    Some(i) => i,
                    None => 0,
                };
                let next = crate::search::next_index(current, total, backwards);
                self.active_text_match = Some(next);
                let matched = self.text_hits.matches[next];
                self.scroll_to_text_line = Some(matched.line);
                let mut msg = String::from_str("Text match ");
                crate::text::push_decimal(&mut msg, next as u128 + 1);
                msg.append("/");
                crate::text::push_decimal(&mut msg, total as u128);
                msg.append(" at line ");
                crate::text::push_decimal(&mut msg, matched.line as u128 + 1);
                msg.append(", column ");
                crate::text::push_decimal(&mut msg, matched.column as u128 + 1);
                self.status_message = msg;
                assert(self@.text_matches[next as int] == (matched.line as int, matched.column as int));
                assert(self@ =~= advanced(m, backwards));
            },
        }
    }
}

} // verus!

verus! {

/// How far hit `i` lies from `line`, in lines.
pub open spec fn line_dist(ms: Seq<(int, int)>, i: int, line: int) -> int {
    if ms[i].0 >= line {
        ms[i].0 - line
    } else {
        line - ms[i].0
    }
}

/// Hit `i` is the first of the hits nearest to `line`.
pub open spec fn is_nearest(ms: Seq<(int, int)>, line: int, i: int) -> bool {
    &&& 0 <= i < ms.len()
    &&& forall|j: int| 0 <= j < ms.len() ==> line_dist(ms, i, line) <= line_dist(ms, j, line)
    &&& forall|j: int| 0 <= j < i ==> line_dist(ms, j, line) > line_dist(ms, i, line)
}

/// The summary of the search shown beside the search field.
pub open spec fn summary_text(m: AppModel) -> Seq<char> {
    let tree_part = match m.active_tree {
        Some(a) => "Tree "@ + crate::text::decimal((a + 1) as nat) + "/"@ + crate::text::decimal(
            m.tree_matches.len(),
        ),
        None => "Tree 0/"@ + crate::text::decimal(m.tree_matches.len()),
    };
    let text_part = match m.active_text {
        Some(a) => "Text "@ + crate::text::decimal((a + 1) as nat) + "/"@ + crate::text::decimal(
            m.text_matches.len(),
        ),
        None => "Text 0/"@ + crate::text::decimal(m.text_matches.len()),
    };
    tree_part + " | "@ + text_part + " (Enter/F3 next, Shift+Enter/F3 prev)"@
}

/// The summary of the search, when there is a query.
pub open spec fn summary(m: AppModel) -> Option<Seq<char>> {
    match normalized(m.query) {
        Some(_) => Some(summary_text(m)),
        None => None,
    }
}

impl JviewsonApp {
    /// Makes the first of the text hits nearest to `line` the current one.
    pub fn activate_nearest_text_match(&mut self, line: usize)
        ensures
            old(self)@.text_matches.len() == 0 ==> final(self)@ == old(self)@,
            old(self)@.text_matches.len() > 0 ==> {
                &&& final(self)@ == AppModel { active_text: final(self)@.active_text, ..old(self)@ }
                &&& final(self)@.active_text matches Some(k) && is_nearest(
                    old(self)@.text_matches,
                    line as int,
                    k,
                )
            },
            final(self)@.wf(),
    {
        proof {
            use_type_invariant(&*self);
        }
        let ghost ms = self@.text_matches;
        if self.text_hits.matches.len() == 0 {
            return;
        }
        let mut best_idx: usize = 0;
        let mut best_dist: usize = usize::MAX;
        let mut idx: usize = 0;
        while idx < self.text_hits.matches.len()
            invariant
                ms == match_pairs(self.text_hits.matches@),
                ms.len() > 0,
                idx <= ms.len(),
                idx == 0 ==> best_dist == usize::MAX && best_idx == 0,
                idx > 0 ==> {
                    &&& best_idx < idx
                    &&& best_dist == line_dist(ms, best_idx as int, line as int)
                    &&& forall|j: int| 0 <= j < idx ==> best_dist <= line_dist(ms, j, line as int)
                    &&& forall|j: int| 0 <= j < best_idx ==> line_dist(ms, j, line as int) > best_dist
                },
            decreases ms.len() - idx,
        {
            let m_line = self.text_hits.matches[idx].line;
            let dist = if m_line >= line {
                m_line - line
            } else {
                line - m_line
            };
            assert(dist == line_dist(ms, idx as int, line as int));
            if dist < best_dist || idx == 0 {
                best_idx = idx;
                best_dist = dist;
            }
            idx += 1;
        }
        let ghost m = self@;
        self.active_text_match = Some(best_idx);
        assert(self@ =~= AppModel { active_text: Some(best_idx as int), ..m });
    }

    /// The summary of the search, when there is a query: which tree and text match is
    /// current, out of how many.
    pub fn search_summary(&self) -> (out: Option<String>)
        ensures
            opt_view(out) == summary(self@),
    {
        if crate::search::normalized_query(self.search_query.as_str()).is_none() {
            return None;
        }
        let mut out = match self.active_tree_match {
            Some(a) => {
                let mut s = String::from_str("Tree ");
                crate::text::push_decimal(&mut s, a as u128 + 1);
                s.append("/");
                s
            },
            None => String::from_str("Tree 0/"),
        };
        crate::text::push_decimal(&mut out, self.tree_match_paths.len() as u128);
        out.append(" | ");
        match self.active_text_match {
            Some(a) => {
                out.append("Text ");
                crate::text::push_decimal(&mut out, a as u128 + 1);
                out.append("/");
            },
            None => {
                out.append("Text 0/");
            },
        }
        crate::text::push_decimal(&mut out, self.text_hits.matches.len() as u128);
        out.append(" (Enter/F3 next, Shift+Enter/F3 prev)");
        assert(out@ =~= summary_text(self@));
        Some(out)
    }
}

} // verus!

verus! {

/// The state after a file was read and parsed, before the search is run again: the
/// document, its formatted text and lines, the file, the root selected with its preview,
/// and a status message with the number of lines.
pub open spec fn with_document(
    m: AppModel,
    path: Seq<char>,
    json: JsonValue,
    pretty: Seq<char>,
    modified: Option<i128>,
    manual_reload: bool,
) -> AppModel {
    let lines = lines_of(pretty);
    AppModel {
        json: Some(json),
        pretty: pretty,
        lines: lines,
        parse_error: None,
        last_modified: modified,
        status: (if manual_reload {
            "File reloaded. "@
        } else {
            "File loaded. "@
        }) + crate::text::decimal(lines.len()) + " lines."@,
        current_file: Some(path),
        selected_path: Some("$"@),
        preview: preview_text(json, shown_json(json)),
        ..m
    }
}

/// The state after a file was read and parsed: the document shown, and the search run
/// again on it.
pub open spec fn loaded(
    m: AppModel,
    path: Seq<char>,
    json: JsonValue,
    pretty: Seq<char>,
    modified: Option<i128>,
    manual_reload: bool,
) -> AppModel {
    rebuilt(with_document(m, path, json, pretty, modified, manual_reload))
}

/// The state after a file could not be read or parsed: the error shown, the document and
/// the selection dropped, the search results cleared. The file stays the current one.
pub open spec fn load_failure(m: AppModel, error: Seq<char>) -> AppModel {
    AppModel {
        parse_error: Some(error),
        status: "Load failed."@,
        json: None,
        pretty: seq![],
        lines: seq![],
        selected_path: None,
        preview: seq![],
        ..m
    }.cleared()
}

/// The state after the outcome of reading and parsing the file at `path` is shown.
pub open spec fn after_read(
    m: AppModel,
    path: Seq<char>,
    read: Result<(JsonValue, Seq<char>, Option<i128>), Seq<char>>,
    manual_reload: bool,
) -> AppModel {
    match read {
        Ok((v, p, t)) => loaded(m, path, v, p, t, manual_reload),
        Err(e) => load_failure(m, e),
    }
}

/// The search of `query` runs to its end on the formatted text that a read outcome brings.
pub open spec fn read_searchable(
    query: Seq<char>,
    read: Result<(JsonValue, Seq<char>, Option<i128>), Seq<char>>,
) -> bool {
    match read {
        Ok((_, p, _)) => search_ok_on(query, lines_of(p)),
        Err(_) => true,
    }
}

impl JviewsonApp {
    /// Shows the outcome of reading and parsing the file at `path`: the document, its
    /// pretty-printed text and modification time, with the search run again on it; or the
    /// error.
    pub fn apply_read(
        &mut self,
        path: String,
        read: Result<(JsonValue, String, Option<i128>), String>,
        manual_reload: bool,
    )
        requires
            read_searchable(old(self)@.query, read_view(read)),
        ensures
            final(self)@ == after_read(old(self)@, path@, read_view(read), manual_reload),
            final(self)@.wf(),
    {
        proof {
            use_type_invariant(&*self);
        }
        let ghost m = self@;
        match read {
            Ok((json_value, pretty_text, modified)) => {
                let preview = crate::json::preview_for_value(&json_value);
                let ghost jv = json_value;
                self.json_value = Some(json_value);
                self.pretty_lines = crate::search::split_lines(pretty_text.as_str());
                let ghost pv = pretty_text@;
                self.pretty_json = pretty_text;
                self.parse_error = None;
                self.last_modified_time = modified;
                let mut msg = if manual_reload {
                    String::from_str("File reloaded. ")
                } else {
                    String::from_str("File loaded. ")
                };
                crate::text::push_decimal(&mut msg, self.pretty_lines.len() as u128);
                msg.append(" lines.");
                self.status_message = msg;
                self.current_file = Some(path);
                self.selected_tree_path = Some(String::from_str("$"));
                self.selected_tree_preview = preview;
                assert(self@ =~= with_document(m, path@, jv, pv, modified, manual_reload));
                self.rebuild_search_index();
            },
            Err(error_message) => {
                self.parse_error = Some(error_message);
                self.status_message = String::from_str("Load failed.");
                self.json_value = None;
                self.pretty_json = String::new();
                self.pretty_lines = Vec::new();
                self.selected_tree_path = None;
                self.selected_tree_preview = String::new();
                self.clear_search_index();
                assert(self@ =~= load_failure(m, error_message@));
            },
        }
        proof {
            use_type_invariant(&*self);
        }
    }

    /// Reads the document of the file at `path` from `content` (the file's text, or why it
    /// could not be read), with the file's modification time, and shows it or the error.
    /// Does nothing, and says so, where the search of the current query would not run to
    /// its end on the new text.
    pub fn load_json_from_path(
        &mut self,
        path: String,
        content: Result<String, String>,
        modified: Option<i128>,
        manual_reload: bool,
    ) -> (applied: bool)
        ensures
            ({
                let read = crate::json::read_result(path@, crate::json::content_view(content), modified);
                &&& applied == read_searchable(old(self)@.query, read)
                &&& applied ==> final(self)@ == after_read(old(self)@, path@, read, manual_reload)
                &&& !applied ==> final(self)@ == old(self)@
            }),
            final(self)@.wf(),
    {
        proof {
            use_type_invariant(&*self);
        }
        let read = crate::json::read_and_parse_json(path.as_str(), content, modified);
        let searchable = match &read {
            Ok((_, pretty, _)) => self.search_runs_on(pretty.as_str()),
            Err(_) => true,
        };
        if !searchable {
            return false;
        }
        self.apply_read(path, read, manual_reload);
        true
    }
}

} // verus!

verus! {

/// How a tree node's label is highlighted.
#[derive(Clone, Copy, Debug, PartialEq, Eq, Structural)]
pub enum TreeHighlight {
    /// The node is the current tree match.
    Active,
    /// The node is a tree match.
    Hit,
    /// Neither.
    Plain,
}

/// What the viewer learnt of the loaded file's modification time on a reload check.
#[derive(Clone, Copy, Debug, PartialEq, Eq, Structural)]
pub enum ReloadProbe {
    /// The file's metadata could not be read.
    MetadataUnavailable,
    /// The metadata holds no modification time.
    ModifiedUnavailable,
    /// The file was last modified at this time, in nanoseconds from the Unix epoch.
    Modified(i128),
}

/// Whether two strings hold the same characters.
fn same_text(a: &String, b: &str) -> (eq: bool)
    ensures
        eq == (a@ == b@),
{
    let b_owned = String::from_str(b);
    *a == b_owned
}

/// Whether `path` is one of the paths in `v`.
fn holds_path(v: &Vec<String>, path: &str) -> (found: bool)
    ensures
        found == strings_view(v@).contains(path@),
{
    let mut i: usize = 0;
    while i < v.len()
        invariant
            i <= v@.len(),
            forall|j: int| 0 <= j < i ==> v@[j]@ != path@,
        decreases v@.len() - i,
    {
        if same_text(&v[i], path) {
            assert(strings_view(v@)[i as int] == path@);
            return true;
        }
        i += 1;
    }
    assert forall|j: int| 0 <= j < strings_view(v@).len() implies strings_view(v@)[j] != path@ by {
        assert(strings_view(v@)[j] == v@[j]@);
    }
    false
}

/// A copy of an optional string.
fn clone_opt(o: &Option<String>) -> (out: Option<String>)
    ensures
        opt_view(out) == opt_view(*o),
{
    match o {
        Some(s) => Some(s.clone()),
        None => None,
    }
}

impl JviewsonApp {
    /// The view shown.
    pub fn tab(&self) -> (t: ViewTab)
        ensures
            t == self@.tab,
    {
        self.tab
    }

    /// Shows another view.
    pub fn set_tab(&mut self, tab: ViewTab)
        ensures
            final(self)@ == (AppModel { tab: tab, ..old(self)@ }),
    {
        proof {
            use_type_invariant(&*self);
        }
        self.tab = tab;
    }

    /// The text of the search field.
    pub fn search_query(&self) -> (q: &str)
        ensures
            q@ == self@.query,
    {
        self.search_query.as_str()
    }

    /// Changes the text of the search field; the search is not run again.
    pub fn set_search_query(&mut self, query: String)
        ensures
            final(self)@ == (AppModel { query: query@, ..old(self)@ }),
    {
        proof {
            use_type_invariant(&*self);
        }
        self.search_query = query;
    }

    /// Whether the file is read again when it changes.
    pub fn auto_reload(&self) -> (b: bool)
        ensures
            b == self@.auto_reload,
    {
        self.auto_reload
    }

    /// Turns reading the file again when it changes on or off.
    pub fn set_auto_reload(&mut self, on: bool)
        ensures
            final(self)@ == (AppModel { auto_reload: on, ..old(self)@ }),
    {
        proof {
            use_type_invariant(&*self);
        }
        self.auto_reload = on;
    }

    /// The file shown, if any.
    pub fn current_file(&self) -> (f: Option<String>)
        ensures
            opt_view(f) == self@.current_file,
    {
        clone_opt(&self.current_file)
    }

    /// The document shown, if any.
    pub fn json_value(&self) -> (v: Option<&JsonValue>)
        ensures
            match v {
                Some(v) => self@.json == Some(*v),
                None => self@.json is None,
            },
    {
        match &self.json_value {
            Some(v) => Some(v),
            None => None,
        }
    }

    /// The lines of the formatted document.
    pub fn pretty_lines(&self) -> (lines: &[String])
        ensures
            string_views(lines@) == self@.lines,
    {
        self.pretty_lines.as_slice()
    }

    /// Why the last file could not be shown, if it could not.
    pub fn parse_error(&self) -> (e: Option<String>)
        ensures
            opt_view(e) == self@.parse_error,
    {
        clone_opt(&self.parse_error)
    }

    /// The status message.
    pub fn status_message(&self) -> (s: &str)
        ensures
            s@ == self@.status,
    {
        self.status_message.as_str()
    }

    /// The paths of the tree matches, in pre-order.
    pub fn tree_match_paths(&self) -> (paths: &[String])
        ensures
            strings_view(paths@) == self@.tree_matches,
    {
        self.tree_match_paths.as_slice()
    }

    /// The text hits.
    pub fn text_matches(&self) -> (ms: &[TextMatch])
        ensures
            match_pairs(ms@) == self@.text_matches,
    {
        self.text_hits.matches.as_slice()
    }

    /// The lines that hold a text hit, each once, in increasing order.
    pub fn text_match_lines(&self) -> (lines: &[usize])
        ensures
            lines@.map_values(|l: usize| l as int) == self@.match_lines,
    {
        self.text_hits.lines.as_slice()
    }

    /// The index of the current tree match, if any.
    pub fn active_tree_match(&self) -> (a: Option<usize>)
        ensures
            opt_int(a) == self@.active_tree,
    {
        self.active_tree_match
    }

    /// The index of the current text match, if any.
    pub fn active_text_match(&self) -> (a: Option<usize>)
        ensures
            opt_int(a) == self@.active_text,
    {
        self.active_text_match
    }

    /// The path of the current tree match, if any.
    pub fn active_tree_path(&self) -> (p: Option<String>)
        ensures
            opt_view(p) == match self@.active_tree {
                Some(i) => Some(self@.tree_matches[i]),
                None => None,
            },
    {
        proof {
            use_type_invariant(self);
        }
        match self.active_tree_match {
            Some(i) => Some(self.tree_match_paths[i].clone()),
            None => None,
        }
    }

    /// The current text hit, if any.
    pub fn current_text_match(&self) -> (m: Option<TextMatch>)
        ensures
            match m {
                Some(m) => self@.active_text matches Some(i) && self@.text_matches[i] == (
                    m.line as int,
                    m.column as int,
                ),
                None => self@.active_text is None,
            },
    {
        proof {
            use_type_invariant(self);
        }
        match self.active_text_match {
            Some(i) => Some(self.text_hits.matches[i]),
            None => None,
        }
    }

    /// The tree path to scroll to, if any.
    pub fn scroll_to_tree_path(&self) -> (p: Option<String>)
        ensures
            opt_view(p) == self@.scroll_tree,
    {
        clone_opt(&self.scroll_to_tree_path)
    }

    /// The text line to scroll to, if any.
    pub fn scroll_to_text_line(&self) -> (l: Option<usize>)
        ensures
            opt_int(l) == self@.scroll_line,
    {
        self.scroll_to_text_line
    }

    /// The selected tree path, if any.
    pub fn selected_tree_path(&self) -> (p: Option<String>)
        ensures
            opt_view(p) == self@.selected_path,
    {
        clone_opt(&self.selected_tree_path)
    }

    /// The preview of the selected tree node.
    pub fn selected_tree_preview(&self) -> (s: &str)
        ensures
            s@ == self@.preview,
    {
        self.selected_tree_preview.as_str()
    }

    /// Whether the node at `path` is a tree match.
    pub fn is_tree_match(&self, path: &str) -> (b: bool)
        ensures
            b == self@.tree_matches.contains(path@),
    {
        holds_path(&self.tree_match_paths, path)
    }

    /// Whether the node at `path` is shown open when first drawn: the root always, else when
    /// its subtree holds a tree match.
    pub fn tree_node_default_open(&self, path: &str) -> (b: bool)
        ensures
            b == (path@ == "$"@ || self@.tree_open.contains(path@)),
    {
        let root = String::from_str("$");
        same_text(&root, path) || holds_path(&self.tree_open_paths, path)
    }

    /// How the label of the node at `path` is highlighted: as the current match, as a match,
    /// or not.
    pub fn tree_node_highlight(&self, path: &str) -> (h: TreeHighlight)
        ensures
            h == if self@.active_tree matches Some(i) && self@.tree_matches[i] == path@ {
                TreeHighlight::Active
            } else if self@.tree_matches.contains(path@) {
                TreeHighlight::Hit
            } else {
                TreeHighlight::Plain
            },
    {
        proof {
            use_type_invariant(self);
        }
        match self.active_tree_match {
            Some(i) => {
                if same_text(&self.tree_match_paths[i], path) {
                    return TreeHighlight::Active;
                }
            },
            None => {},
        }
        if self.is_tree_match(path) {
            TreeHighlight::Hit
        } else {
            TreeHighlight::Plain
        }
    }

    /// Whether the node at `path` is the selected one.
    pub fn is_tree_node_selected(&self, path: &str) -> (b: bool)
        ensures
            b == (self@.selected_path == Some(path@)),
    {
        match &self.selected_tree_path {
            Some(p) => same_text(p, path),
            None => false,
        }
    }

    /// Whether the tree view is to be scrolled to the node at `path`.
    pub fn is_tree_scroll_target(&self, path: &str) -> (b: bool)
        ensures
            b == (self@.scroll_tree == Some(path@)),
    {
        match &self.scroll_to_tree_path {
            Some(p) => same_text(p, path),
            None => false,
        }
    }

    /// Selects the node at `path`, with the preview of its value.
    pub fn select_tree_node(&mut self, path: String, preview: String)
        ensures
            final(self)@ == (AppModel { selected_path: Some(path@), preview: preview@, ..old(self)@ }),
    {
        proof {
            use_type_invariant(&*self);
        }
        self.selected_tree_path = Some(path);
        self.selected_tree_preview = preview;
    }

    /// Notes that the tree view was scrolled to its target.
    pub fn finish_tree_scroll(&mut self)
        ensures
            final(self)@ == (AppModel { scroll_tree: None, ..old(self)@ }),
    {
        proof {
            use_type_invariant(&*self);
        }
        self.scroll_to_tree_path = None;
    }

    /// Notes that the text view was scrolled to its target.
    pub fn finish_text_scroll(&mut self)
        ensures
            final(self)@ == (AppModel { scroll_line: None, ..old(self)@ }),
    {
        proof {
            use_type_invariant(&*self);
        }
        self.scroll_to_text_line = None;
    }

    /// Scrolls the text view to `line`, picked on the minimap, and makes the nearest text hit
    /// the current one.
    pub fn pick_text_line(&mut self, line: usize)
        ensures
            ({
                let m = AppModel { scroll_line: Some(line as int), ..old(self)@ };
                &&& m.text_matches.len() == 0 ==> final(self)@ == m
                &&& m.text_matches.len() > 0 ==> {
                    &&& final(self)@ == AppModel { active_text: final(self)@.active_text, ..m }
                    &&& final(self)@.active_text matches Some(k) && is_nearest(
                        m.text_matches,
                        line as int,
                        k,
                    )
                }
            }),
            final(self)@.wf(),
    {
        proof {
            use_type_invariant(&*self);
        }
        self.scroll_to_text_line = Some(line);
        self.activate_nearest_text_match(line);
    }

    /// Whether the search of the current query runs to its end on the current lines.
    pub fn search_runs(&self) -> (ok: bool)
        ensures
            ok == search_ok(self@),
    {
        match crate::search::normalized_query(self.search_query.as_str()) {
            Some(q) => crate::search::text_search_runs(self.pretty_lines.as_slice(), q.as_str()),
            None => true,
        }
    }

    /// Whether the search of the current query runs to its end on the lines of
    /// `pretty_text`, which a load would show.
    pub fn search_runs_on(&self, pretty_text: &str) -> (ok: bool)
        ensures
            ok == search_ok_on(self@.query, lines_of(pretty_text@)),
    {
        match crate::search::normalized_query(self.search_query.as_str()) {
            Some(q) => {
                let lines = crate::search::split_lines(pretty_text);
                crate::search::text_search_runs(lines.as_slice(), q.as_str())
            },
            None => true,
        }
    }

    /// Whether a reload check is due: auto reload is on and at least 750 ms have passed since
    /// the last one.
    pub fn auto_reload_due(&self, elapsed_nanos: u128) -> (due: bool)
        ensures
            due == (self@.auto_reload && elapsed_nanos >= 750_000_000),
    {
        self.auto_reload && elapsed_nanos >= 750_000_000
    }

    /// Takes what a reload check learnt of the file, and says whether to read it again: when
    /// its modification time is known and no earlier one was, or it is later than the one
    /// of the document shown. Unreadable metadata is reported in the status message.
    pub fn reload_check(&mut self, probe: ReloadProbe) -> (reload: bool)
        ensures
            reload == match probe {
                ReloadProbe::Modified(t) => match old(self)@.last_modified {
                    Some(prev) => t > prev,
                    None => true,
                },
                _ => false,
            },
            final(self)@ == match probe {
                ReloadProbe::MetadataUnavailable => AppModel {
                    status: "Auto reload: file metadata unavailable."@,
                    ..old(self)@
                },
                _ => old(self)@,
            },
    {
        proof {
            use_type_invariant(&*self);
        }
        match probe {
            ReloadProbe::MetadataUnavailable => {
                self.status_message = String::from_str("Auto reload: file metadata unavailable.");
                false
            },
            ReloadProbe::ModifiedUnavailable => false,
            ReloadProbe::Modified(t) => match self.last_modified_time {
                Some(prev) => t > prev,
                None => true,
            },
        }
    }

    /// Notes in the status message that the file was read again after it changed.
    pub fn note_auto_reloaded(&mut self)
        ensures
            final(self)@ == (AppModel { status: "File auto-reloaded after modification."@, ..old(self)@ }),
    {
        proof {
            use_type_invariant(&*self);
        }
        self.status_message = String::from_str("File auto-reloaded after modification.");
    }
}

} // verus!

verus! {

impl Default for JviewsonApp {
    fn default() -> (app: JviewsonApp)
        ensures
            app@ == initial_model(),
            app@.wf(),
    {
        JviewsonApp::new()
    }
}

} // verus!
