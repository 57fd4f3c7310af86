use vstd::prelude::*;
use crate::text::{ascii_lower, contains_seq, decimal, push_decimal};

verus! {

/// A number as the JSON parser holds it.
#[verifier::external_type_specification]
#[verifier::external_body]
pub struct ExJsonNumber(serde_json::Number);

/// A document as the JSON parser holds it.
#[verifier::external_type_specification]
#[verifier::external_body]
pub struct ExJsonDocument(serde_json::Value);

/// A parsed JSON document, as the tree view shows it. Object members stand in the order in
/// which the parser's map hands them out; a number is kept as the text the parser writes
/// for it, beside the parsed number itself.
#[derive(Debug)]
pub enum JsonValue {
    Null,
    Bool(bool),
    Number(String, serde_json::Number),
    String(String),
    Array(Vec<JsonValue>),
    Object(Vec<(String, JsonValue)>),
}

/// Names what `format!("{:?}", s)` writes for a string: the string in double quotes, with
/// its special characters escaped.
pub uninterp spec fn str_debug(s: Seq<char>) -> Seq<char>;

/// The `Debug` form of a string, through `format!("{:?}", ..)`; its result is named
/// `str_debug` of the string and nothing more is claimed of it.
#[verifier::external_body]
fn debug_quoted(s: &str) -> (out: String)
    ensures
        out@ == str_debug(s@),
{
    format!("{:?}", s)
}

/// The one-line text of a value in the tree: strings quoted, numbers, booleans and null as
/// JSON writes them, and `<nested>` for arrays and objects.
pub open spec fn value_text(v: JsonValue) -> Seq<char> {
    match v {
        JsonValue::String(s) => str_debug(s@),
        JsonValue::Number(n, _) => n@,
        JsonValue::Bool(b) => if b {
            "true"@
        } else {
            "false"@
        },
        JsonValue::Null => "null"@,
        JsonValue::Array(_) => "<nested>"@,
        JsonValue::Object(_) => "<nested>"@,
    }
}

/// The one-line text of a value in the tree.
pub fn value_as_string(value: &JsonValue) -> (out: String)
    ensures
        out@ == value_text(*value),
{
    match value {
        JsonValue::String(s) => debug_quoted(s.as_str()),
        JsonValue::Number(n, _) => n.clone(),
        JsonValue::Bool(b) => if *b {
            String::from_str("true")
        } else {
            String::from_str("false")
        },
        JsonValue::Null => String::from_str("null"),
        JsonValue::Array(_) => String::from_str("<nested>"),
        JsonValue::Object(_) => String::from_str("<nested>"),
    }
}

/// The label of a tree node: `key: {}` for an object, `key: [n]` for an array of `n`
/// items, `key: text` for anything else.
pub open spec fn label_text(key: Seq<char>, v: JsonValue) -> Seq<char> {
    match v {
        JsonValue::Object(_) => key + ": {}"@,
        JsonValue::Array(items) => key + ": ["@ + decimal(items@.len()) + "]"@,
        _ => key + ": "@ + value_text(v),
    }
}

/// The label of a tree node.
pub fn node_label(key: &str, value: &JsonValue) -> (out: String)
    ensures
        out@ == label_text(key@, *value),
{
    let mut out = String::from_str(key);
    match value {
        JsonValue::Object(_) => {
            out.append(": {}");
        },
        JsonValue::Array(items) => {
            out.append(": [");
            push_decimal(&mut out, items.len() as u128);
            out.append("]");
        },
        _ => {
            out.append(": ");
            let t = value_as_string(value);
            out.append(t.as_str());
        },
    }
    out
}

/// The key under which item `idx` of an array is shown: `[idx]`.
pub open spec fn index_key(idx: nat) -> Seq<char> {
    "["@ + decimal(idx) + "]"@
}

/// The key of item `idx` of an array.
pub fn array_child_key(idx: usize) -> (out: String)
    ensures
        out@ == index_key(idx as nat),
{
    let mut out = String::from_str("[");
    push_decimal(&mut out, idx as u128);
    out.append("]");
    out
}

/// The path of a member `key` of the object at `path`: `path.key`.
pub open spec fn member_path(path: Seq<char>, key: Seq<char>) -> Seq<char> {
    path + "."@ + key
}

/// The path of member `key` of the object at `path`.
pub fn object_child_path(path: &str, key: &str) -> (out: String)
    ensures
        out@ == member_path(path@, key@),
{
    let mut out = String::from_str(path);
    out.append(".");
    out.append(key);
    out
}

/// The path of item `idx` of the array at `path`: `path[idx]`.
pub fn array_child_path(path: &str, idx: usize) -> (out: String)
    ensures
        out@ == path@ + index_key(idx as nat),
{
    let mut out = String::from_str(path);
    let k = array_child_key(idx);
    out.append(k.as_str());
    out
}

} // verus!

verus! {

/// What a search of a subtree finds: the paths of the nodes whose lowercased label holds
/// the query, in pre-order; the paths of the nodes whose subtree holds such a node, each
/// after those below it; and whether the subtree holds one at all.
pub struct TreeScan {
    pub matches: Seq<Seq<char>>,
    pub opened: Seq<Seq<char>>,
    pub hit: bool,
}

/// The number of children of a node.
pub open spec fn child_count(v: JsonValue) -> nat {
    match v {
        JsonValue::Array(items) => items@.len(),
        JsonValue::Object(members) => members@.len(),
        _ => 0,
    }
}

/// Searches the node `v` shown under `key` at `path` for `q`.
pub open spec fn scan_node(key: Seq<char>, path: Seq<char>, v: JsonValue, q: Seq<char>) -> TreeScan
    decreases v, 1nat, 0nat,
{
    let self_hit = contains_seq(ascii_lower(label_text(key, v)), q);
    let kids = scan_kids(path, v, q, child_count(v));
    TreeScan {
        matches: (if self_hit {
            seq![path]
        } else {
            seq![]
        }) + kids.matches,
        opened: if self_hit || kids.hit {
            kids.opened.push(path)
        } else {
            kids.opened
        },
        hit: self_hit || kids.hit,
    }
}

/// Searches the first `n` children of the node `v` at `path` for `q`, in order.
pub open spec fn scan_kids(path: Seq<char>, v: JsonValue, q: Seq<char>, n: nat) -> TreeScan
    decreases v, 0nat, n,
{
    if n == 0 || n > child_count(v) {
        TreeScan { matches: seq![], opened: seq![], hit: false }
    } else {
        let before = scan_kids(path, v, q, (n - 1) as nat);
        let c = match v {
            JsonValue::Array(items) => scan_node(
                index_key((n - 1) as nat),
                path + index_key((n - 1) as nat),
                items@[n - 1],
                q,
            ),
            JsonValue::Object(members) => scan_node(
                members@[n - 1].0@,
                member_path(path, members@[n - 1].0@),
                members@[n - 1].1,
                q,
            ),
            _ => TreeScan { matches: seq![], opened: seq![], hit: false },
        };
        TreeScan {
            matches: before.matches + c.matches,
            opened: before.opened + c.opened,
            hit: before.hit || c.hit,
        }
    }
}

} // verus!

verus! {

/// The character sequences of a sequence of strings.
pub open spec fn strings_view(v: Seq<String>) -> Seq<Seq<char>> {
    v.map_values(|s: String| s@)
}

/// Searches the node `value` shown under `key` at `path` and everything below it for the
/// lowercased query; adds the paths of the nodes whose lowercased label holds it to
/// `matches` (pre-order), and the paths of the nodes whose subtree holds such a node to
/// `open_paths` (each after those below it). Says whether the subtree holds one.
pub fn collect_tree_matches(
    key: &str,
    path: &str,
    value: &JsonValue,
    query_lc: &str,
    matches: &mut Vec<String>,
    open_paths: &mut Vec<String>,
) -> (subtree_match: bool)
    ensures
        strings_view(final(matches)@) == strings_view(old(matches)@) + scan_node(
            key@,
            path@,
            *value,
            query_lc@,
        ).matches,
        strings_view(final(open_paths)@) == strings_view(old(open_paths)@) + scan_node(
            key@,
            path@,
            *value,
            query_lc@,
        ).opened,
        subtree_match == scan_node(key@, path@, *value, query_lc@).hit,
    decreases *value,
{
    let label = node_label(key, value);
    let label_lc = crate::text::lower_chars(label.as_str());
    let q = crate::text::chars_of(query_lc);
    let self_match = crate::text::contains_chars(label_lc.as_slice(), q.as_slice());
    let ghost m0 = strings_view(matches@);
    let ghost o0 = strings_view(open_paths@);
    if self_match {
        matches.push(String::from_str(path));
    }
    assert(strings_view(matches@) =~= m0 + (if self_match {
        seq![path@]
    } else {
        seq![]
    }));
    let ghost m1 = strings_view(matches@);
    let mut subtree_match = self_match;
    let ghost v = *value;
    match value {
        JsonValue::Object(members) => {
            let mut i: usize = 0;
            while i < members.len()
                invariant
                    v == JsonValue::Object(*members),
                    *value == v,
                    i <= members@.len(),
                    strings_view(matches@) == m1 + scan_kids(path@, v, query_lc@, i as nat).matches,
                    strings_view(open_paths@) == o0 + scan_kids(path@, v, query_lc@, i as nat).opened,
                    subtree_match == (self_match || scan_kids(path@, v, query_lc@, i as nat).hit),
                decreases members@.len() - i,
            {
                let child_key: &str = members[i].0.as_str();
                let child_path = object_child_path(path, child_key);
                proof {
                    assert(decreases_to!(v => *members));
                    assert(decreases_to!(*members => members@));
                    assert(decreases_to!(members@ => members@[i as int]));
                    assert(decreases_to!(members@[i as int] => members@[i as int].1));
                }
                let found = collect_tree_matches(
                    child_key,
                    child_path.as_str(),
                    &members[i].1,
                    query_lc,
                    matches,
                    open_paths,
                );
                if found {
                    subtree_match = true;
                }
                assert(strings_view(matches@) =~= m1 + scan_kids(path@, v, query_lc@, (i + 1) as nat).matches);
                assert(strings_view(open_paths@) =~= o0 + scan_kids(path@, v, query_lc@, (i + 1) as nat).opened);
                i += 1;
            }
        },
        JsonValue::Array(items) => {
            let mut i: usize = 0;
            while i < items.len()
                invariant
                    v == JsonValue::Array(*items),
                    *value == v,
                    i <= items@.len(),
                    strings_view(matches@) == m1 + scan_kids(path@, v, query_lc@, i as nat).matches,
                    strings_view(open_paths@) == o0 + scan_kids(path@, v, query_lc@, i as nat).opened,
                    subtree_match == (self_match || scan_kids(path@, v, query_lc@, i as nat).hit),
                decreases items@.len() - i,
            {
                let child_key = array_child_key(i);
                let child_path = array_child_path(path, i);
                proof {
                    assert(decreases_to!(v => *items));
                    assert(decreases_to!(*items => items@));
                    assert(decreases_to!(items@ => items@[i as int]));
                }
                let found = collect_tree_matches(
                    child_key.as_str(),
                    child_path.as_str(),
                    &items[i],
                    query_lc,
                    matches,
                    open_paths,
                );
                if found {
                    subtree_match = true;
                }
                assert(strings_view(matches@) =~= m1 + scan_kids(path@, v, query_lc@, (i + 1) as nat).matches);
                assert(strings_view(open_paths@) =~= o0 + scan_kids(path@, v, query_lc@, (i + 1) as nat).opened);
                i += 1;
            }
        },
        _ => {
            assert(strings_view(matches@) =~= m1 + scan_kids(path@, v, query_lc@, 0).matches);
            assert(strings_view(open_paths@) =~= o0 + scan_kids(path@, v, query_lc@, 0).opened);
        },
    }
    let ghost kids = scan_kids(path@, v, query_lc@, child_count(v));
    assert(self_match == contains_seq(ascii_lower(label_text(key@, v)), query_lc@));
    assert(strings_view(open_paths@) == o0 + kids.opened);
    assert(subtree_match == (self_match || kids.hit));
    let ghost ob = strings_view(open_paths@);
    if subtree_match {
        open_paths.push(String::from_str(path));
        assert(strings_view(open_paths@) =~= ob.push(path@));
    }
    assert(scan_node(key@, path@, v, query_lc@).opened == if self_match || kids.hit {
        kids.opened.push(path@)
    } else {
        kids.opened
    });
    assert(strings_view(open_paths@) =~= o0 + scan_node(key@, path@, v, query_lc@).opened);
    assert(strings_view(matches@) =~= m0 + scan_node(key@, path@, v, query_lc@).matches);
    subtree_match
}

} // verus!

verus! {

/// The most characters that a preview of a selected node shows.
pub const PREVIEW_CHAR_LIMIT: usize = 200000;

/// Whether a value is an array or an object.
pub open spec fn is_container(v: JsonValue) -> bool {
    v is Array || v is Object
}

/// The preview of a selected node: the given text of an array or object, the one-line text
/// of anything else, cut to the preview limit.
pub open spec fn preview_text(v: JsonValue, pretty: Seq<char>) -> Seq<char> {
    crate::search::truncated_preview(
        if is_container(v) {
            pretty
        } else {
            value_text(v)
        },
        PREVIEW_CHAR_LIMIT as nat,
    )
}

/// The JSON text shown for a document: its pretty-printed form, or its compact form where
/// pretty-printing fails.
pub open spec fn shown_json(v: JsonValue) -> Seq<char> {
    match json_pretty(v) {
        Ok(p) => p,
        Err(_) => json_compact(v),
    }
}

/// The preview of a selected node: the pretty-printed JSON of an array or object, the
/// one-line text of anything else, cut to the preview limit.
pub fn preview_for_value(value: &JsonValue) -> (out: String)
    ensures
        out@ == preview_text(*value, shown_json(*value)),
{
    let raw = match value {
        JsonValue::Object(_) | JsonValue::Array(_) => match pretty_json(value) {
            Ok(p) => p,
            Err(_) => compact_json(value),
        },
        _ => value_as_string(value),
    };
    crate::search::truncate_for_preview(raw, PREVIEW_CHAR_LIMIT)
}

/// The id of a tree node's header: `tree-search-path` while a search is on, else
/// `tree-path`.
pub open spec fn node_id_text(path: Seq<char>, searching: bool) -> Seq<char> {
    if searching {
        "tree-search-"@ + path
    } else {
        "tree-"@ + path
    }
}

/// The id of a tree node's header.
pub fn tree_node_id(path: &str, searching: bool) -> (out: String)
    ensures
        out@ == node_id_text(path@, searching),
{
    let mut out = if searching {
        String::from_str("tree-search-")
    } else {
        String::from_str("tree-")
    };
    out.append(path);
    out
}

} // verus!

verus! {

/// Names what the JSON parser makes of a text: the document, or the parser's error message.
pub uninterp spec fn json_parse(text: Seq<char>) -> Result<JsonValue, Seq<char>>;

/// Names the pretty-printed JSON text of a document, or the serializer's error message.
pub uninterp spec fn json_pretty(doc: JsonValue) -> Result<Seq<char>, Seq<char>>;

/// Names the compact JSON text of a document.
pub uninterp spec fn json_compact(doc: JsonValue) -> Seq<char>;

/// The library's form of a parsed document: one variant for each of the parser's, numbers
/// with their `Display` text. Used by the parser wrapper only.
#[verifier::external_body]
fn document_of(v: &serde_json::Value) -> JsonValue {
    match v {
        serde_json::Value::Null => JsonValue::Null,
        serde_json::Value::Bool(b) => JsonValue::Bool(*b),
        serde_json::Value::Number(n) => JsonValue::Number(n.to_string(), n.clone()),
        serde_json::Value::String(s) => JsonValue::String(s.clone()),
        serde_json::Value::Array(a) => JsonValue::Array(a.iter().map(document_of).collect()),
        serde_json::Value::Object(m) => JsonValue::Object(
            m.iter().map(|(k, x)| (k.clone(), document_of(x))).collect(),
        ),
    }
}

/// The parser's form of a document of the library: one variant for each of the library's.
/// Used by the serializer wrappers only.
#[verifier::external_body]
fn parser_form_of(doc: &JsonValue) -> serde_json::Value {
    match doc {
        JsonValue::Null => serde_json::Value::Null,
        JsonValue::Bool(b) => serde_json::Value::Bool(*b),
        JsonValue::Number(_, n) => serde_json::Value::Number(n.clone()),
        JsonValue::String(s) => serde_json::Value::String(s.clone()),
        JsonValue::Array(a) => serde_json::Value::Array(a.iter().map(parser_form_of).collect()),
        JsonValue::Object(m) => serde_json::Value::Object(
            m.iter().map(|(k, x)| (k.clone(), parser_form_of(x))).collect(),
        ),
    }
}

/// `serde_json::from_str::<serde_json::Value>`: parses JSON text; its result, the document
/// or the `Display` text of the error, is named `json_parse` of the text.
#[verifier::external_body]
pub(crate) fn parse_json(text: &str) -> (r: Result<JsonValue, String>)
    ensures
        match r {
            Ok(v) => json_parse(text@) == Ok::<JsonValue, Seq<char>>(v),
            Err(e) => json_parse(text@) == Err::<JsonValue, Seq<char>>(e@),
        },
{
    match serde_json::from_str::<serde_json::Value>(text) {
        Ok(v) => Ok(document_of(&v)),
        Err(e) => Err(e.to_string()),
    }
}

/// `serde_json::to_string_pretty`: the pretty-printed JSON of a document, or the `Display`
/// text of the error; named `json_pretty` of the document.
#[verifier::external_body]
pub(crate) fn pretty_json(doc: &JsonValue) -> (r: Result<String, String>)
    ensures
        match r {
            Ok(p) => json_pretty(*doc) == Ok::<Seq<char>, Seq<char>>(p@),
            Err(e) => json_pretty(*doc) == Err::<Seq<char>, Seq<char>>(e@),
        },
{
    match serde_json::to_string_pretty(&parser_form_of(doc)) {
        Ok(p) => Ok(p),
        Err(e) => Err(e.to_string()),
    }
}

/// The `Display` form of `serde_json::Value`: the compact JSON of a document, named
/// `json_compact` of the document.
#[verifier::external_body]
pub(crate) fn compact_json(doc: &JsonValue) -> (out: String)
    ensures
        out@ == json_compact(*doc),
{
    parser_form_of(doc).to_string()
}

/// What reading and parsing a file gives: the document, its pretty-printed text and the
/// file's modification time; or a message that names the file and says what went wrong
/// (reading, parsing or formatting).
pub open spec fn read_result(
    path: Seq<char>,
    content: Result<Seq<char>, Seq<char>>,
    modified: Option<i128>,
) -> Result<(JsonValue, Seq<char>, Option<i128>), Seq<char>> {
    match content {
        Err(e) => Err("Could not read file '"@ + path + "': "@ + e),
        Ok(text) => match json_parse(text) {
            Err(m) => Err("Invalid JSON in '"@ + path + "': "@ + m),
            Ok(v) => match json_pretty(v) {
                Err(m) => Err("Could not format JSON from '"@ + path + "': "@ + m),
                Ok(p) => Ok((v, p, modified)),
            },
        },
    }
}

/// A read result as values.
pub open spec fn read_view(r: Result<(JsonValue, String, Option<i128>), String>) -> Result<
    (JsonValue, Seq<char>, Option<i128>),
    Seq<char>,
> {
    match r {
        Ok((v, p, m)) => Ok((v, p@, m)),
        Err(e) => Err(e@),
    }
}

/// A read outcome as values.
pub open spec fn content_view(c: Result<String, String>) -> Result<Seq<char>, Seq<char>> {
    match c {
        Ok(t) => Ok(t@),
        Err(e) => Err(e@),
    }
}

/// The message for a file that could not be used: `prefix'path': detail`.
fn file_message(prefix: &str, path: &str, detail: &str) -> (out: String)
    ensures
        out@ == prefix@ + path@ + "': "@ + detail@,
{
    let mut out = String::from_str(prefix);
    out.append(path);
    out.append("': ");
    out.append(detail);
    out
}

/// Parses the text read from the file at `path` (or takes the reading error), and
/// pretty-prints the document; `modified` is the file's modification time.
pub fn read_and_parse_json(path: &str, content: Result<String, String>, modified: Option<i128>) -> (r:
    Result<(JsonValue, String, Option<i128>), String>)
    ensures
        read_view(r) == read_result(path@, content_view(content), modified),
{
    let text = match content {
        Err(e) => return Err(file_message("Could not read file '", path, e.as_str())),
        Ok(t) => t,
    };
    let parsed = match parse_json(text.as_str()) {
        Err(m) => return Err(file_message("Invalid JSON in '", path, m.as_str())),
        Ok(v) => v,
    };
    match pretty_json(&parsed) {
        Err(m) => Err(file_message("Could not format JSON from '", path, m.as_str())),
        Ok(p) => Ok((parsed, p, modified)),
    }
}

} // verus!
