//! The texts of the configuration documents: YAML read into the library's document tree,
//! the runtime configuration written back as YAML, and the whole step from the texts of
//! the layers to the text of the runtime configuration.
use vstd::prelude::*;
use crate::json::{Json, JsonValue, view_items, lemma_view_items};
use crate::clash::config_merge::{runtime_config, clash_json, merge_runtime_config};
use crate::clash::session::CoreError;
use crate::app::config::ClashSettings;

verus! {

/// A document as serde_json holds it.
#[verifier::external_type_specification]
#[verifier::external_body]
pub struct ExJsonTree(serde_json::Value);

/// serde_json's tree as the library's document, one value for one: numbers by their
/// decimal text, object entries in the order serde_json holds them.
#[verifier::external_body]
fn tree_to_value(v: &serde_json::Value) -> JsonValue {
    match v {
        serde_json::Value::Null => JsonValue::Null,
        serde_json::Value::Bool(b) => JsonValue::Bool(*b),
        serde_json::Value::Number(n) => JsonValue::Number(n.to_string()),
        serde_json::Value::String(s) => JsonValue::Str(s.clone()),
        serde_json::Value::Array(items) => JsonValue::Array(items.iter().map(tree_to_value).collect()),
        serde_json::Value::Object(map) => JsonValue::Object(map.iter().map(|(k, x)| (k.clone(), tree_to_value(x))).collect()),
    }
}

/// The library's document as serde_json's tree, one value for one; a number whose text
/// serde_json does not read as a number stays its text.
#[verifier::external_body]
fn value_to_tree(v: &JsonValue) -> serde_json::Value {
    match v {
        JsonValue::Null => serde_json::Value::Null,
        JsonValue::Bool(b) => serde_json::Value::Bool(*b),
        JsonValue::Number(n) => match n.parse::<serde_json::Number>() {
            Ok(number) => serde_json::Value::Number(number),
            Err(_) => serde_json::Value::String(n.clone()),
        },
        JsonValue::Str(s) => serde_json::Value::String(s.clone()),
        JsonValue::Array(items) => serde_json::Value::Array(items.iter().map(value_to_tree).collect()),
        JsonValue::Object(entries) => serde_json::Value::Object(entries.iter().map(|(k, x)| (k.clone(), value_to_tree(x))).collect()),
    }
}

/// What `serde_saphyr::from_str` reads from a text as a document: the document, or the
/// text of its error.
pub uninterp spec fn yaml_document(text: Seq<char>) -> Result<Json, Seq<char>>;

/// What `serde_saphyr::to_string` writes for a document: the YAML text, or the text of
/// its error.
pub uninterp spec fn yaml_text(doc: Json) -> Result<Seq<char>, Seq<char>>;

/// Reads a YAML text as a document.
///
/// Trusted: calls `serde_saphyr::from_str` into a `serde_json::Value` and converts the
/// tree value for value; the contract names what it gives, a function of the text alone.
#[verifier::external_body]
pub(crate) fn parse_yaml_document(text: &str) -> (r: Result<JsonValue, String>)
    ensures
        match yaml_document(text@) {
            Ok(j) => r is Ok && r->Ok_0@ == j,
            Err(e) => r is Err && r->Err_0@ == e,
        },
{
    match serde_saphyr::from_str::<serde_json::Value>(text) {
        Ok(tree) => Ok(tree_to_value(&tree)),
        Err(error) => Err(error.to_string()),
    }
}

/// Writes a document as YAML.
///
/// Trusted: converts the document value for value into a `serde_json::Value` and calls
/// `serde_saphyr::to_string`; the contract names what it gives, a function of the
/// document alone.
#[verifier::external_body]
fn write_yaml_document(doc: &JsonValue) -> (r: Result<String, String>)
    ensures
        match yaml_text(doc@) {
            Ok(t) => r is Ok && r->Ok_0@ == t,
            Err(e) => r is Err && r->Err_0@ == e,
        },
{
    match serde_saphyr::to_string(&value_to_tree(doc)) {
        Ok(text) => Ok(text),
        Err(error) => Err(error.to_string()),
    }
}

/// The first of the texts that does not read as a document.
pub open spec fn first_unreadable(texts: Seq<Seq<char>>) -> Option<int>
    decreases texts.len(),
{
    if texts.len() == 0 {
        None
    } else {
        match first_unreadable(texts.drop_last()) {
            Some(k) => Some(k),
            None => if yaml_document(texts.last()) is Err { Some(texts.len() - 1) } else { None },
        }
    }
}

/// The documents the texts read as.
pub open spec fn read_documents(texts: Seq<Seq<char>>) -> Seq<Json> {
    texts.map_values(|t: Seq<char>| yaml_document(t)->Ok_0)
}

/// The texts of the layers: the second member of each pair.
pub open spec fn layer_texts(layers: Seq<(String, String)>) -> Seq<Seq<char>> {
    layers.map_values(|l: (String, String)| l.1@)
}

/// Reads the text of one layer as a document; a text that does not read is reported with
/// the layer's context.
pub fn parse_layer(context: &String, text: &String) -> (r: Result<JsonValue, CoreError>)
    ensures
        match yaml_document(text@) {
            Ok(j) => r is Ok && r->Ok_0@ == j,
            Err(e) => r matches Err(CoreError::Parse(c, d)) && c@ == context@ && d@ == e,
        },
{
    match parse_yaml_document(text.as_str()) {
        Ok(doc) => Ok(doc),
        Err(detail) => Err(CoreError::Parse(context.clone(), detail)),
    }
}

/// The text of the runtime configuration from the texts of its layers: each layer is a
/// pair of the context of its parse error (`解析配置 … 失败` and the like) and its text,
/// configurations and overrides in merge order; `fixed` is the fixed configuration. The
/// first text that does not read is reported with its context; otherwise the documents
/// are merged as `runtime_config` says and written as YAML.
pub fn runtime_config_text(layers: &Vec<(String, String)>, settings: &ClashSettings, tun_enable: bool, fixed: &(String, String)) -> (r: Result<String, CoreError>)
    ensures
        match first_unreadable(layer_texts(layers@)) {
            Some(k) => r matches Err(CoreError::Parse(c, d))
                && c@ == layers@[k].0@ && d@ == yaml_document(layers@[k].1@)->Err_0,
            None => match yaml_document(fixed.1@) {
                Err(e) => r matches Err(CoreError::Parse(c, d)) && c@ == fixed.0@ && d@ == e,
                Ok(f) => match yaml_text(runtime_config(read_documents(layer_texts(layers@)), clash_json(*settings, tun_enable), f)) {
                    Ok(t) => r is Ok && r->Ok_0@ == t,
                    Err(e) => r matches Err(CoreError::Serialize(d)) && d@ == e,
                },
            },
        },
{
    let ghost texts = layer_texts(layers@);
    let mut docs: Vec<JsonValue> = Vec::new();
    let mut i: usize = 0;
    proof { assert(texts.subrange(0, 0) =~= Seq::<Seq<char>>::empty()); }
    while i < layers.len()
        invariant
            i <= layers@.len(),
            texts == layer_texts(layers@),
            texts.len() == layers@.len(),
            first_unreadable(texts.subrange(0, i as int)) is None,
            view_items(docs@) == read_documents(texts.subrange(0, i as int)),
        decreases layers@.len() - i,
    {
        let ghost pre = texts.subrange(0, i as int);
        let ghost next = texts.subrange(0, i + 1);
        proof {
            assert(next.drop_last() =~= pre);
            assert(next.last() == layers@[i as int].1@);
        }
        match parse_layer(&layers[i].0, &layers[i].1) {
            Ok(doc) => {
                let ghost before = docs@;
                docs.push(doc);
                proof {
                    lemma_view_items(before);
                    lemma_view_items(docs@);
                    assert(texts[i as int] == layers@[i as int].1@);
                    assert(yaml_document(next.last()) is Ok);
                    assert forall|k: int| 0 <= k < next.len() implies #[trigger] view_items(docs@)[k] == read_documents(next)[k] by {
                        if k < i {
                            assert(docs@[k] == before[k]);
                            assert(next[k] == pre[k]);
                            assert(view_items(before)[k] == read_documents(pre)[k]);
                        }
                    }
                    assert(view_items(docs@) =~= read_documents(next));
                }
            },
            Err(e) => {
                proof {
                    assert(texts[i as int] == layers@[i as int].1@);
                    lemma_first_unreadable_prefix(texts, i as int + 1);
                    lemma_first_unreadable_extends(texts, i as int + 1);
                }
                return Err(e);
            },
        }
        i = i + 1;
    }
    proof { assert(texts.subrange(0, layers@.len() as int) =~= texts); }
    let fixed_doc = match parse_layer(&fixed.0, &fixed.1) {
        Ok(doc) => doc,
        Err(e) => return Err(e),
    };
    let merged = merge_runtime_config(&docs, settings, tun_enable, &fixed_doc);
    match write_yaml_document(&merged) {
        Ok(text) => Ok(text),
        Err(detail) => Err(CoreError::Serialize(detail)),
    }
}

/// The first unreadable text of a prefix is the first of the whole list.
proof fn lemma_first_unreadable_extends(texts: Seq<Seq<char>>, n: int)
    requires
        0 <= n <= texts.len(),
        first_unreadable(texts.subrange(0, n)) is Some,
    ensures
        first_unreadable(texts) == first_unreadable(texts.subrange(0, n)),
    decreases texts.len() - n,
{
    if n < texts.len() {
        assert(texts.subrange(0, n + 1).drop_last() =~= texts.subrange(0, n));
        lemma_first_unreadable_extends(texts, n + 1);
    } else {
        assert(texts.subrange(0, n) =~= texts);
    }
}

/// The first unreadable text of a prefix that is unreadable only at its end.
proof fn lemma_first_unreadable_prefix(texts: Seq<Seq<char>>, n: int)
    requires
        0 < n <= texts.len(),
        first_unreadable(texts.subrange(0, n - 1)) is None,
        yaml_document(texts[n - 1]) is Err,
    ensures
        first_unreadable(texts.subrange(0, n)) == Some(n - 1),
{
    assert(texts.subrange(0, n).drop_last() =~= texts.subrange(0, n - 1));
}

} // verus!
