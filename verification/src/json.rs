//! JSON documents: how the nodes of a document are addressed, and how a
//! path expression selects nodes.
//!
//! A document is kept as its bytes; a node is named by the steps that lead
//! to it from the root. Every question about a node is put to the parser on
//! the bytes, so nothing that the parser built is held across calls.

use serde_json::Value;
use vstd::prelude::*;
use vstd::string::StringSliceAdditionalSpecFns;
use crate::numbers::{parse_usize, parse_usize_of};
use crate::text::{
    chars_of, find_char, first_index_of, is_blank_text, lemma_first_index_of, opt_view, owned,
    split, split_on, string_of_range, strip_prefix, strip_suffix, trim, trim_of, views,
    without_prefix, without_suffix,
};

verus! {

/// One step from a node to a node below it.
#[derive(Clone, Debug)]
pub enum JsonStep {
    /// To the member of an object with this name.
    Key(String),
    /// To the item of an array at this index.
    Index(usize),
    /// Along a JSON Pointer.
    Pointer(String),
}

/// The mathematical value of a `JsonStep`.
pub enum StepView {
    Key(Seq<char>),
    Index(usize),
    Pointer(Seq<char>),
}

impl View for JsonStep {
    type V = StepView;

    open spec fn view(&self) -> StepView {
        match *self {
            JsonStep::Key(k) => StepView::Key(k@),
            JsonStep::Index(i) => StepView::Index(i),
            JsonStep::Pointer(p) => StepView::Pointer(p@),
        }
    }
}

/// The steps from the root of a document to a node.
pub open spec fn path_view(path: Seq<JsonStep>) -> Seq<StepView> {
    path.map_values(|s: JsonStep| s@)
}

pub open spec fn paths_view(paths: Seq<Vec<JsonStep>>) -> Seq<Seq<StepView>> {
    paths.map_values(|p: Vec<JsonStep>| path_view(p@))
}

/// What a node is: its kind, and its value where it is a scalar, its length
/// where it is an array, the names of its members where it is an object.
#[derive(Clone, Debug)]
pub enum JsonNode {
    Null,
    Bool(bool),
    Number(String),
    Text(String),
    Array(usize),
    Object(Vec<String>),
}

/// The mathematical value of a `JsonNode`.
pub enum NodeView {
    Null,
    Bool(bool),
    Number(Seq<char>),
    Text(Seq<char>),
    Array(usize),
    Object(Seq<Seq<char>>),
}

impl View for JsonNode {
    type V = NodeView;

    open spec fn view(&self) -> NodeView {
        match *self {
            JsonNode::Null => NodeView::Null,
            JsonNode::Bool(b) => NodeView::Bool(b),
            JsonNode::Number(n) => NodeView::Number(n@),
            JsonNode::Text(t) => NodeView::Text(t@),
            JsonNode::Array(n) => NodeView::Array(n),
            JsonNode::Object(keys) => NodeView::Object(views(keys@)),
        }
    }
}

pub open spec fn node_opt_view(n: Option<JsonNode>) -> Option<NodeView> {
    match n {
        Some(v) => Some(v@),
        None => None,
    }
}

/// Whether the bytes are a JSON document.
pub uninterp spec fn json_is_valid(body: Seq<u8>) -> bool;

/// The root of a JSON document; none where the bytes are no JSON document.
pub uninterp spec fn json_root_of(body: Seq<u8>) -> Option<NodeView>;

/// The JSON text of the node at the end of the path, without white space
/// between its tokens.
pub uninterp spec fn json_text_at(body: Seq<u8>, path: Seq<StepView>) -> Option<Seq<char>>;

/// The JSON text of the array whose items are the nodes at the ends of the
/// paths.
pub uninterp spec fn json_array_text_of(body: Seq<u8>, paths: Seq<Seq<StepView>>) -> Option<
    Seq<char>,
>;

/// `serde_json::from_slice` for a `serde_json::Value`. The contract claims
/// that whether the bytes are a JSON document depends on the bytes alone.
#[verifier::external_body]
pub(crate) fn json_parses(body: &[u8]) -> (r: bool)
    ensures
        r == json_is_valid(body@),
{
    serde_json::from_slice::<Value>(body).is_ok()
}

/// `serde_json::from_slice`. The contract claims that what is reported of
/// the root of the document depends on the bytes alone.
#[verifier::external_body]
pub(crate) fn json_root(body: &[u8]) -> (r: Option<JsonNode>)
    ensures
        node_opt_view(r) == json_root_of(body@),
{
    Some(match serde_json::from_slice(body).ok()? {
        Value::Null => JsonNode::Null,
        Value::Bool(b) => JsonNode::Bool(b),
        Value::Number(n) => JsonNode::Number(n.to_string()),
        Value::String(s) => JsonNode::Text(s),
        Value::Array(a) => JsonNode::Array(a.len()),
        Value::Object(o) => JsonNode::Object(o.keys().cloned().collect()),
    })
}

/// `serde_json::from_slice`, then `Value::get` or `Value::pointer` for every
/// step of the path, then `Value::to_string` of the node found. The contract
/// claims that the text depends on the bytes and the path alone.
#[verifier::external_body]
pub(crate) fn json_text(body: &[u8], path: &Vec<JsonStep>) -> (r: Option<String>)
    ensures
        opt_view(r) == json_text_at(body@, path_view(path@)),
{
    let root: Value = serde_json::from_slice(body).ok()?;
    let node = path.iter().try_fold(&root, |v, step| match step {
        JsonStep::Key(k) => v.get(k.as_str()),
        JsonStep::Index(i) => v.get(*i),
        JsonStep::Pointer(p) => v.pointer(p),
    })?;
    Some(node.to_string())
}

/// `serde_json::from_slice`, then the nodes at the ends of the paths as for
/// `json_text`, put into a `Value::Array`, and `Value::to_string` of that
/// array. The contract claims that the text depends on the bytes and the
/// paths alone; there is none where a path leads nowhere.
#[verifier::external_body]
pub(crate) fn json_array_text(body: &[u8], paths: &Vec<Vec<JsonStep>>) -> (r: Option<String>)
    ensures
        opt_view(r) == json_array_text_of(body@, paths_view(paths@)),
{
    let root: Value = serde_json::from_slice(body).ok()?;
    let walk = |path: &Vec<JsonStep>| path.iter().try_fold(&root, |v, step| match step {
        JsonStep::Key(k) => v.get(k.as_str()),
        JsonStep::Index(i) => v.get(*i),
        JsonStep::Pointer(p) => v.pointer(p),
    });
    let items: Option<Vec<Value>> = paths.iter().map(|p| walk(p).cloned()).collect();
    Some(Value::Array(items?).to_string())
}

/// The node of the document at the end of the path: the root of the JSON
/// text of that node; none where the bytes are no JSON document or the path
/// leads nowhere.
pub open spec fn json_node_at(body: Seq<u8>, path: Seq<StepView>) -> Option<NodeView> {
    match json_text_at(body, path) {
        Some(t) => json_root_of(vstd::utf8::encode_utf8(t)),
        None => None,
    }
}

/// What the node at the end of a path is.
pub fn json_node(body: &[u8], path: &Vec<JsonStep>) -> (r: Option<JsonNode>)
    ensures
        node_opt_view(r) == json_node_at(body@, path_view(path@)),
{
    match json_text(body, path) {
        Some(t) => json_root(t.as_str().as_bytes()),
        None => None,
    }
}

// ---------------------------------------------------------------------------
// Path expressions
// ---------------------------------------------------------------------------

/// One part of a path expression of the form `$.a.b[*].c[3]`.
#[derive(Clone, Debug)]
pub enum JsonToken {
    /// `name`: the member of that name.
    Key(String),
    /// `name[*]`: every item of the array that is the member of that name.
    All(String),
    /// `name[3]`: the item at that index of the array that is the member of
    /// that name.
    Index(String, usize),
}

/// The mathematical value of a `JsonToken`.
pub enum TokenView {
    Key(Seq<char>),
    All(Seq<char>),
    Index(Seq<char>, usize),
}

impl View for JsonToken {
    type V = TokenView;

    open spec fn view(&self) -> TokenView {
        match *self {
            JsonToken::Key(k) => TokenView::Key(k@),
            JsonToken::All(k) => TokenView::All(k@),
            JsonToken::Index(k, i) => TokenView::Index(k@, i),
        }
    }
}

pub open spec fn token_views(tokens: Seq<JsonToken>) -> Seq<TokenView> {
    tokens.map_values(|t: JsonToken| t@)
}

/// The token that one part of a path expression stands for.
pub open spec fn token_of(part: Seq<char>) -> TokenView {
    match without_suffix(part, "[*]"@) {
        Some(key) => TokenView::All(key),
        None => match first_index_of(part, '[') {
            Some(i) => match without_suffix(part.skip(i + 1), "]"@) {
                Some(digits) => match parse_usize_of(digits) {
                    Some(index) => TokenView::Index(part.take(i), index),
                    None => TokenView::Key(part),
                },
                None => TokenView::Key(part),
            },
            None => TokenView::Key(part),
        },
    }
}

/// The tokens of the parts of a path expression.
pub open spec fn tokens_of_parts(parts: Seq<Seq<char>>) -> Seq<TokenView> {
    parts.map_values(|p: Seq<char>| token_of(p))
}

/// The tokens of a path expression: it is trimmed, must start with `$.`, and
/// what follows is split at every point.
pub open spec fn tokens_of(path: Seq<char>) -> Option<Seq<TokenView>> {
    match without_prefix(trim_of(path), "$."@) {
        Some(rest) => Some(tokens_of_parts(split_on(rest, '.'))),
        None => None,
    }
}

fn token_from(part: &str) -> (t: JsonToken)
    ensures
        t@ == token_of(part@),
{
    match strip_suffix(part, "[*]") {
        Some(key) => JsonToken::All(key),
        None => {
            let v = chars_of(part);
            match find_char(&v, '[') {
                Some(i) => {
                    let key = string_of_range(&v, 0, i);
                    let rest = string_of_range(&v, i + 1, v.len());
                    assert(v@.subrange(0, i as int) =~= part@.take(i as int));
                    assert(v@.subrange(i + 1, v.len() as int) =~= part@.skip(i + 1));
                    match strip_suffix(rest.as_str(), "]") {
                        Some(digits) => match parse_usize(digits.as_str()) {
                            Some(index) => JsonToken::Index(key, index),
                            None => JsonToken::Key(owned(part)),
                        },
                        None => JsonToken::Key(owned(part)),
                    }
                },
                None => JsonToken::Key(owned(part)),
            }
        },
    }
}

/// Reads a path expression of the form `$.a.b[*].c[3]`.
pub fn jsonpath_tokens(path: &str) -> (r: Option<Vec<JsonToken>>)
    ensures
        (match r {
            Some(tokens) => Some(token_views(tokens@)),
            None => None,
        }) == tokens_of(path@),
{
    let trimmed = trim(path);
    match strip_prefix(trimmed.as_str(), "$.") {
        Some(rest) => {
            let parts = split(rest.as_str(), '.');
            let mut tokens: Vec<JsonToken> = Vec::new();
            let mut i: usize = 0;
            while i < parts.len()
                invariant
                    i <= parts.len(),
                    tokens.len() == i,
                    forall|k: int| 0 <= k < i ==> (#[trigger] tokens@[k])@ == token_of(parts@[k]@),
                decreases parts.len() - i,
            {
                tokens.push(token_from(parts[i].as_str()));
                i += 1;
            }
            assert(token_views(tokens@) =~= tokens_of_parts(views(parts@)));
            Some(tokens)
        },
        None => None,
    }
}

// ---------------------------------------------------------------------------
// Selection
// ---------------------------------------------------------------------------

/// The items of an array of `len` items at the end of `path`.
pub open spec fn items_of(path: Seq<StepView>, len: nat) -> Seq<Seq<StepView>> {
    Seq::new(len, |j: int| path.push(StepView::Index(j as usize)))
}

/// The node itself, or its items where it is an array.
pub open spec fn spread(body: Seq<u8>, path: Seq<StepView>) -> Seq<Seq<StepView>> {
    match json_node_at(body, path) {
        Some(NodeView::Array(n)) => items_of(path, n as nat),
        _ => seq![path],
    }
}

/// The nodes that one token selects below one node.
pub open spec fn token_on(body: Seq<u8>, node: Seq<StepView>, token: TokenView) -> Seq<
    Seq<StepView>,
> {
    match token {
        TokenView::Key(k) => if json_node_at(body, node.push(StepView::Key(k))) is Some {
            seq![node.push(StepView::Key(k))]
        } else {
            Seq::<Seq<StepView>>::empty()
        },
        TokenView::All(k) => match json_node_at(body, node.push(StepView::Key(k))) {
            Some(NodeView::Array(n)) => items_of(node.push(StepView::Key(k)), n as nat),
            _ => Seq::<Seq<StepView>>::empty(),
        },
        TokenView::Index(k, i) => match json_node_at(body, node.push(StepView::Key(k))) {
            Some(NodeView::Array(n)) => if i < n {
                seq![node.push(StepView::Key(k)).push(StepView::Index(i))]
            } else {
                Seq::<Seq<StepView>>::empty()
            },
            _ => Seq::<Seq<StepView>>::empty(),
        },
    }
}

/// The nodes that one token selects below the nodes of a list, in the order
/// of the list.
pub open spec fn token_on_all(body: Seq<u8>, nodes: Seq<Seq<StepView>>, token: TokenView) -> Seq<
    Seq<StepView>,
>
    decreases nodes.len(),
{
    if nodes.len() == 0 {
        Seq::<Seq<StepView>>::empty()
    } else {
        token_on_all(body, nodes.drop_last(), token) + token_on(body, nodes.last(), token)
    }
}

/// The nodes that the tokens select, one after the other, starting from the
/// nodes given. The walk ends where a token selects nothing.
pub open spec fn walk(body: Seq<u8>, nodes: Seq<Seq<StepView>>, tokens: Seq<TokenView>) -> Seq<
    Seq<StepView>,
>
    decreases tokens.len(),
{
    if tokens.len() == 0 {
        nodes
    } else {
        let next = token_on_all(body, nodes, tokens[0]);
        if next.len() == 0 {
            next
        } else {
            walk(body, next, tokens.drop_first())
        }
    }
}

/// The nodes that a path expression selects below the node `root`.
///
/// Without an expression the node itself is selected, or its items where it
/// is an array. An expression that is blank or `$` selects the node. One
/// that starts with `/` is a JSON Pointer: it selects the node that it
/// points to, or that node's items where it is an array, or nothing. Any
/// other expression is read as `$.a.b[*]`; where it cannot be read so, or
/// selects nothing, the node itself is selected.
pub open spec fn selected_nodes(body: Seq<u8>, root: Seq<StepView>, path: Option<Seq<char>>) -> Seq<
    Seq<StepView>,
> {
    match path {
        None => spread(body, root),
        Some(p) => if trim_of(p).len() == 0 || p == "$"@ {
            seq![root]
        } else if has_slash(p) {
            match json_node_at(body, root.push(StepView::Pointer(p))) {
                Some(NodeView::Array(n)) => items_of(root.push(StepView::Pointer(p)), n as nat),
                Some(_) => seq![root.push(StepView::Pointer(p))],
                None => Seq::<Seq<StepView>>::empty(),
            }
        } else {
            match tokens_of(p) {
                Some(tokens) => {
                    let found = walk(body, seq![root], tokens);
                    if found.len() == 0 {
                        seq![root]
                    } else {
                        found
                    }
                },
                None => seq![root],
            }
        },
    }
}

/// Whether the expression starts with `/`.
pub open spec fn has_slash(p: Seq<char>) -> bool {
    p.len() > 0 && p[0] == '/'
}

/// An owned copy of a path.
pub fn copy_path(path: &Vec<JsonStep>) -> (out: Vec<JsonStep>)
    ensures
        path_view(out@) == path_view(path@),
{
    let mut out: Vec<JsonStep> = Vec::new();
    let mut i: usize = 0;
    while i < path.len()
        invariant
            i <= path.len(),
            out.len() == i,
            forall|k: int| 0 <= k < i ==> (#[trigger] out@[k])@ == path@[k]@,
        decreases path.len() - i,
    {
        let step = match &path[i] {
            JsonStep::Key(k) => JsonStep::Key(k.clone()),
            JsonStep::Index(n) => JsonStep::Index(*n),
            JsonStep::Pointer(p) => JsonStep::Pointer(p.clone()),
        };
        out.push(step);
        i += 1;
    }
    assert(path_view(out@) =~= path_view(path@));
    out
}

/// The path `path` with one more step.
pub fn extend_path(path: &Vec<JsonStep>, step: JsonStep) -> (out: Vec<JsonStep>)
    ensures
        path_view(out@) == path_view(path@).push(step@),
{
    let mut out = copy_path(path);
    let ghost before = path_view(out@);
    out.push(step);
    assert(path_view(out@) =~= before.push(step@));
    out
}

/// Appends the paths of the items of an array of `len` items at `path`.
fn push_items(out: &mut Vec<Vec<JsonStep>>, path: &Vec<JsonStep>, len: usize)
    ensures
        paths_view(final(out)@) == paths_view(old(out)@) + items_of(path_view(path@), len as nat),
{
    let ghost before = paths_view(out@);
    let ghost base = path_view(path@);
    let mut j: usize = 0;
    while j < len
        invariant
            j <= len,
            base == path_view(path@),
            paths_view(out@) == before + items_of(base, j as nat),
        decreases len - j,
    {
        let ghost sofar = paths_view(out@);
        out.push(extend_path(path, JsonStep::Index(j)));
        j += 1;
        assert(paths_view(out@) =~= sofar.push(base.push(StepView::Index((j - 1) as usize))));
        assert(paths_view(out@) =~= before + items_of(base, j as nat));
    }
}

/// Appends the nodes that `token` selects below `node`.
fn push_token_on(
    out: &mut Vec<Vec<JsonStep>>,
    body: &[u8],
    node: &Vec<JsonStep>,
    token: &JsonToken,
)
    ensures
        paths_view(final(out)@) == paths_view(old(out)@) + token_on(
            body@,
            path_view(node@),
            token@,
        ),
{
    let ghost before = paths_view(out@);
    let key = match token {
        JsonToken::Key(k) => k,
        JsonToken::All(k) => k,
        JsonToken::Index(k, _) => k,
    };
    let member = extend_path(node, JsonStep::Key(key.clone()));
    let found = json_node(body, &member);
    match token {
        JsonToken::Key(_) => {
            if found.is_some() {
                out.push(member);
                assert(paths_view(out@) =~= before + seq![path_view(member@)]);
            } else {
                assert(paths_view(out@) =~= before + Seq::<Seq<StepView>>::empty());
            }
        },
        JsonToken::All(_) => match found {
            Some(JsonNode::Array(n)) => {
                push_items(out, &member, n);
            },
            _ => {
                assert(paths_view(out@) =~= before + Seq::<Seq<StepView>>::empty());
            },
        },
        JsonToken::Index(_, i) => match found {
            Some(JsonNode::Array(n)) => {
                if *i < n {
                    let item = extend_path(&member, JsonStep::Index(*i));
                    out.push(item);
                    assert(paths_view(out@) =~= before + seq![
                        path_view(member@).push(StepView::Index(*i)),
                    ]);
                } else {
                    assert(paths_view(out@) =~= before + Seq::<Seq<StepView>>::empty());
                }
            },
            _ => {
                assert(paths_view(out@) =~= before + Seq::<Seq<StepView>>::empty());
            },
        },
    }
}

/// The nodes that `token` selects below the nodes of a list.
fn apply_token(body: &[u8], nodes: &Vec<Vec<JsonStep>>, token: &JsonToken) -> (out: Vec<
    Vec<JsonStep>,
>)
    ensures
        paths_view(out@) == token_on_all(body@, paths_view(nodes@), token@),
{
    let mut out: Vec<Vec<JsonStep>> = Vec::new();
    let mut i: usize = 0;
    assert(paths_view(nodes@).take(0) =~= Seq::<Seq<StepView>>::empty());
    assert(paths_view(out@) =~= Seq::<Seq<StepView>>::empty());
    while i < nodes.len()
        invariant
            i <= nodes.len(),
            paths_view(out@) == token_on_all(body@, paths_view(nodes@).take(i as int), token@),
        decreases nodes.len() - i,
    {
        push_token_on(&mut out, body, &nodes[i], token);
        i += 1;
        proof {
            let now = paths_view(nodes@).take(i as int);
            assert(now.drop_last() =~= paths_view(nodes@).take(i - 1));
            assert(now.last() == path_view(nodes@[i - 1]@));
        }
    }
    assert(paths_view(nodes@).take(i as int) =~= paths_view(nodes@));
    out
}

/// The nodes that the tokens select, starting from the nodes given.
fn walk_tokens(body: &[u8], start: Vec<Vec<JsonStep>>, tokens: &Vec<JsonToken>) -> (out: Vec<
    Vec<JsonStep>,
>)
    ensures
        paths_view(out@) == walk(body@, paths_view(start@), token_views(tokens@)),
{
    let mut current = start;
    let mut i: usize = 0;
    assert(token_views(tokens@).skip(0) =~= token_views(tokens@));
    while i < tokens.len()
        invariant
            i <= tokens.len(),
            walk(body@, paths_view(start@), token_views(tokens@)) == walk(
                body@,
                paths_view(current@),
                token_views(tokens@).skip(i as int),
            ),
        decreases tokens.len() - i,
    {
        let ghost rest = token_views(tokens@).skip(i as int);
        assert(rest[0] == tokens@[i as int]@);
        assert(rest.drop_first() =~= token_views(tokens@).skip(i + 1));
        let next = apply_token(body, &current, &tokens[i]);
        if next.len() == 0 {
            return next;
        }
        current = next;
        i += 1;
    }
    current
}

/// A list that holds one path.
fn single(path: &Vec<JsonStep>) -> (out: Vec<Vec<JsonStep>>)
    ensures
        paths_view(out@) == seq![path_view(path@)],
{
    let mut out: Vec<Vec<JsonStep>> = Vec::new();
    out.push(copy_path(path));
    assert(paths_view(out@) =~= seq![path_view(path@)]);
    out
}

/// Selects the nodes of a document that a path expression names below the
/// node `root`.
pub fn select_json_nodes(body: &[u8], root: &Vec<JsonStep>, path: Option<&str>) -> (out: Vec<
    Vec<JsonStep>,
>)
    ensures
        paths_view(out@) == selected_nodes(
            body@,
            path_view(root@),
            match path {
                Some(p) => Some(p@),
                None => None,
            },
        ),
{
    let p = match path {
        Some(p) => p,
        None => {
            return match json_node(body, root) {
                Some(JsonNode::Array(n)) => {
                    let mut out: Vec<Vec<JsonStep>> = Vec::new();
                    assert(paths_view(out@) =~= Seq::<Seq<StepView>>::empty());
                    push_items(&mut out, root, n);
                    assert(paths_view(out@) =~= items_of(path_view(root@), n as nat));
                    out
                },
                _ => single(root),
            };
        },
    };
    proof {
        reveal_strlit("$");
    }
    if is_blank_text(p) || *p == *"$" {
        return single(root);
    }
    let v = chars_of(p);
    if v.len() > 0 && v[0] == '/' {
        let target = extend_path(root, JsonStep::Pointer(owned(p)));
        return match json_node(body, &target) {
            Some(JsonNode::Array(n)) => {
                let mut out: Vec<Vec<JsonStep>> = Vec::new();
                assert(paths_view(out@) =~= Seq::<Seq<StepView>>::empty());
                push_items(&mut out, &target, n);
                assert(paths_view(out@) =~= items_of(path_view(target@), n as nat));
                out
            },
            Some(_) => single(&target),
            None => {
                let out: Vec<Vec<JsonStep>> = Vec::new();
                assert(paths_view(out@) =~= Seq::<Seq<StepView>>::empty());
                out
            },
        };
    }
    match jsonpath_tokens(p) {
        Some(tokens) => {
            let found = walk_tokens(body, single(root), &tokens);
            if found.len() == 0 {
                single(root)
            } else {
                found
            }
        },
        None => single(root),
    }
}

// ---------------------------------------------------------------------------
// Values as text
// ---------------------------------------------------------------------------

/// The text of `true` or `false`.
pub open spec fn bool_text(b: bool) -> Seq<char> {
    if b {
        "true"@
    } else {
        "false"@
    }
}

/// The text that stands for a node in a mapped field: nothing for `null`,
/// the string itself, the numeral of a number, `true` or `false`, and the
/// JSON text of an array or an object.
pub open spec fn node_text(node: NodeView, json: Option<Seq<char>>) -> Option<Seq<char>> {
    match node {
        NodeView::Null => None,
        NodeView::Bool(b) => Some(bool_text(b)),
        NodeView::Number(n) => Some(n),
        NodeView::Text(t) => Some(t),
        _ => json,
    }
}

/// Whether a node is a string, a number or a truth value.
pub open spec fn is_scalar(node: NodeView) -> bool {
    node is Bool || node is Number || node is Text
}

/// The text that stands for the node at the end of a path.
pub open spec fn value_text_at(body: Seq<u8>, path: Seq<StepView>) -> Option<Seq<char>> {
    match json_node_at(body, path) {
        Some(node) => node_text(node, json_text_at(body, path)),
        None => None,
    }
}

/// The text that stands for a node, given what the parser said of it.
pub fn text_of_node(node: &JsonNode, json: Option<String>) -> (r: Option<String>)
    ensures
        opt_view(r) == node_text(node@, opt_view(json)),
{
    match node {
        JsonNode::Null => None,
        JsonNode::Bool(b) => Some(
            if *b {
                "true".to_string()
            } else {
                "false".to_string()
            },
        ),
        JsonNode::Number(n) => Some(n.clone()),
        JsonNode::Text(t) => Some(t.clone()),
        _ => json,
    }
}

/// The text that stands for the node at the end of a path.
pub fn json_value_to_string(body: &[u8], path: &Vec<JsonStep>) -> (r: Option<String>)
    ensures
        opt_view(r) == value_text_at(body@, path_view(path@)),
{
    match json_node(body, path) {
        Some(node) => {
            let json = match node {
                JsonNode::Array(_) => json_text(body, path),
                JsonNode::Object(_) => json_text(body, path),
                _ => None,
            };
            let r = text_of_node(&node, json);
            proof {
                let spec_json = json_text_at(body@, path_view(path@));
                assert(node_text(node@, opt_view(json)) == node_text(node@, spec_json));
            }
            r
        },
        None => None,
    }
}

/// The value that a path expression selects below a node, as text: nothing
/// where it selects nothing; the text of the node where it selects one; the
/// JSON text of the array of the nodes where it selects several.
pub open spec fn selected_text(body: Seq<u8>, root: Seq<StepView>, path: Seq<char>) -> Option<
    Seq<char>,
> {
    let nodes = selected_nodes(body, root, Some(path));
    if nodes.len() == 0 {
        None
    } else if nodes.len() == 1 {
        value_text_at(body, nodes[0])
    } else {
        json_array_text_of(body, nodes)
    }
}

/// Selects a value below a node and renders it as text.
pub fn select_json_value(body: &[u8], root: &Vec<JsonStep>, path: &str) -> (r: Option<String>)
    ensures
        opt_view(r) == selected_text(body@, path_view(root@), path@),
{
    let nodes = select_json_nodes(body, root, Some(path));
    if nodes.len() == 0 {
        None
    } else if nodes.len() == 1 {
        assert(paths_view(nodes@)[0] == path_view(nodes@[0]@));
        json_value_to_string(body, &nodes[0])
    } else {
        json_array_text(body, &nodes)
    }
}

} // verus!
