//! YAML documents as the library writes them, and the errors of reading and writing YAML.

use serde_yaml::{Mapping, Value};
use vstd::prelude::*;
use vstd::utf8::encode_utf8;

verus! {

/// An error of the YAML crate.
#[verifier::external_type_specification]
#[verifier::external_body]
pub struct ExYamlError(serde_yaml::Error);

/// The value of one key of a document.
pub enum YamlNode {
    /// Nothing.
    Null,
    /// A text.
    Text(String),
    /// A record: its fields, in order.
    Fields(Vec<(String, String)>),
    /// A list of records.
    Records(Vec<Vec<(String, String)>>),
}

/// What a [`YamlNode`] holds.
pub enum YamlNodeView {
    Null,
    Text(Seq<char>),
    Fields(Seq<(Seq<char>, Seq<char>)>),
    Records(Seq<Seq<(Seq<char>, Seq<char>)>>),
}

/// The fields of a record, as texts.
pub open spec fn fields_view(fields: Seq<(String, String)>) -> Seq<(Seq<char>, Seq<char>)> {
    fields.map_values(|f: (String, String)| (f.0@, f.1@))
}

/// The value of a record's field.
pub open spec fn field_of(fields: Seq<(Seq<char>, Seq<char>)>, name: Seq<char>) -> Seq<char>
    decreases fields.len(),
{
    if fields.len() == 0 {
        Seq::empty()
    } else if fields[0].0 == name {
        fields[0].1
    } else {
        field_of(fields.drop_first(), name)
    }
}

impl View for YamlNode {
    type V = YamlNodeView;

    open spec fn view(&self) -> YamlNodeView {
        match self {
            YamlNode::Null => YamlNodeView::Null,
            YamlNode::Text(text) => YamlNodeView::Text(text@),
            YamlNode::Fields(fields) => YamlNodeView::Fields(fields_view(fields@)),
            YamlNode::Records(records) => YamlNodeView::Records(
                records@.map_values(|r: Vec<(String, String)>| fields_view(r@)),
            ),
        }
    }
}

/// A document: its keys with their values, in order.
pub open spec fn doc_view(doc: Seq<(String, YamlNode)>) -> Seq<(Seq<char>, YamlNodeView)> {
    doc.map_values(|e: (String, YamlNode)| (e.0@, e.1@))
}

/// The largest weight of a document that can be written, and one more: the largest signed
/// 32-bit number, which is what the YAML crate measures texts, lines and columns with.
pub const YAML_LIMIT: u32 = 0x7fff_ffff;

/// A bound on how much a text takes up where it is written: every byte of it takes four
/// characters at most, and what stands around it takes eight.
pub open spec fn text_weight(text: Seq<char>) -> nat {
    4 * encode_utf8(text).len() + 8
}

/// The weight of a record's fields.
pub open spec fn fields_weight(fields: Seq<(Seq<char>, Seq<char>)>) -> nat
    decreases fields.len(),
{
    if fields.len() == 0 {
        0
    } else {
        fields_weight(fields.drop_last()) + text_weight(fields.last().0) + text_weight(
            fields.last().1,
        )
    }
}

/// The weight of a list of records: that of their fields, and eight for each record.
pub open spec fn records_weight(records: Seq<Seq<(Seq<char>, Seq<char>)>>) -> nat
    decreases records.len(),
{
    if records.len() == 0 {
        0
    } else {
        records_weight(records.drop_last()) + fields_weight(records.last()) + 8
    }
}

/// The weight of a value.
pub open spec fn node_weight(node: YamlNodeView) -> nat {
    match node {
        YamlNodeView::Null => 8,
        YamlNodeView::Text(text) => text_weight(text),
        YamlNodeView::Fields(fields) => fields_weight(fields) + 8,
        YamlNodeView::Records(records) => records_weight(records) + 8,
    }
}

/// The weight of a document: four for each byte of its texts, and eight for each text, record,
/// list and nothing.
pub open spec fn doc_weight(doc: Seq<(Seq<char>, YamlNodeView)>) -> nat
    decreases doc.len(),
{
    if doc.len() == 0 {
        0
    } else {
        doc_weight(doc.drop_last()) + text_weight(doc.last().0) + node_weight(doc.last().1)
    }
}

/// Whether a document is small enough to be written.
pub open spec fn doc_fits(doc: Seq<(Seq<char>, YamlNodeView)>) -> bool {
    doc_weight(doc) < YAML_LIMIT
}

/// A weight, or the limit where the weight reaches it.
spec fn capped(weight: nat) -> nat {
    if weight < YAML_LIMIT {
        weight
    } else {
        YAML_LIMIT as nat
    }
}

/// A sum of two weights, up to the limit.
fn both(a: u32, b: u32) -> (r: u32)
    requires
        a <= YAML_LIMIT,
        b <= YAML_LIMIT,
    ensures
        r == capped((a + b) as nat),
{
    if a + b < YAML_LIMIT {
        a + b
    } else {
        YAML_LIMIT
    }
}

fn weigh_text(text: &str) -> (r: u32)
    ensures
        r == capped(text_weight(text@)),
{
    let n: usize = text.as_bytes().len();
    if n < 0x2000_0000 {
        both(n as u32 * 4, 8)
    } else {
        YAML_LIMIT
    }
}

fn weigh_fields(fields: &Vec<(String, String)>) -> (r: u32)
    ensures
        r == capped(fields_weight(fields_view(fields@))),
{
    let mut sum: u32 = 0;
    let mut i: usize = 0;
    let ghost all = fields_view(fields@);
    while i < fields.len()
        invariant
            i <= fields@.len(),
            all == fields_view(fields@),
            sum == capped(fields_weight(all.take(i as int))),
        decreases fields@.len() - i,
    {
        assert(all.take(i + 1).drop_last() =~= all.take(i as int));
        sum = both(sum, weigh_text(fields[i].0.as_str()));
        sum = both(sum, weigh_text(fields[i].1.as_str()));
        i = i + 1;
    }
    assert(all.take(i as int) =~= all);
    sum
}

fn weigh_records(records: &Vec<Vec<(String, String)>>) -> (r: u32)
    ensures
        r == capped(
            records_weight(records@.map_values(|r: Vec<(String, String)>| fields_view(r@))),
        ),
{
    let mut sum: u32 = 0;
    let mut i: usize = 0;
    let ghost all = records@.map_values(|r: Vec<(String, String)>| fields_view(r@));
    while i < records.len()
        invariant
            i <= records@.len(),
            all == records@.map_values(|r: Vec<(String, String)>| fields_view(r@)),
            sum == capped(records_weight(all.take(i as int))),
        decreases records@.len() - i,
    {
        assert(all.take(i + 1).drop_last() =~= all.take(i as int));
        sum = both(sum, weigh_fields(&records[i]));
        sum = both(sum, 8);
        i = i + 1;
    }
    assert(all.take(i as int) =~= all);
    sum
}

fn weigh_node(node: &YamlNode) -> (r: u32)
    ensures
        r == capped(node_weight(node@)),
{
    match node {
        YamlNode::Null => 8,
        YamlNode::Text(text) => weigh_text(text.as_str()),
        YamlNode::Fields(fields) => both(weigh_fields(fields), 8),
        YamlNode::Records(records) => both(weigh_records(records), 8),
    }
}

/// Whether a document is small enough to be written.
pub(crate) fn fits(doc: &Vec<(String, YamlNode)>) -> (r: bool)
    ensures
        r == doc_fits(doc_view(doc@)),
{
    let mut sum: u32 = 0;
    let mut i: usize = 0;
    let ghost all = doc_view(doc@);
    while i < doc.len()
        invariant
            i <= doc@.len(),
            all == doc_view(doc@),
            sum == capped(doc_weight(all.take(i as int))),
        decreases doc@.len() - i,
    {
        assert(all.take(i + 1).drop_last() =~= all.take(i as int));
        sum = both(sum, weigh_text(doc[i].0.as_str()));
        sum = both(sum, weigh_node(&doc[i].1));
        i = i + 1;
    }
    assert(all.take(i as int) =~= all);
    sum < YAML_LIMIT
}

/// The YAML that a document is written as.
pub uninterp spec fn yaml_text(doc: Seq<(Seq<char>, YamlNodeView)>) -> Seq<char>;

/// A document as `serde_yaml::to_string` writes it, as a mapping that keeps the order of its
/// keys. What comes out is a function of the document alone: the layout and the quoting are the
/// crate's and are not spelled out.
///
/// The crate hands each text on with a signed 32-bit length and counts lines and columns in
/// signed 32-bit numbers, so it must not be given a document that outgrows them. A document that
/// fits is always written: the serializer refuses only nested enums, the emitter fails only on
/// malformed tags, anchors and directives or where its writer fails, and a document has none of
/// the former and is written to a buffer in memory; and what comes out is UTF-8 as the texts are.
#[verifier::external_body]
pub(crate) fn write_yaml(doc: &Vec<(String, YamlNode)>) -> (r: Result<String, serde_yaml::Error>)
    requires
        doc_fits(doc_view(doc@)),
    ensures
        r is Ok,
        (r->Ok_0)@ == yaml_text(doc_view(doc@)),
{
    let text = |t: &String| Value::from(t.as_str());
    let record = |fields: &Vec<(String, String)>| {
        let pairs = fields.iter().map(|f| (text(&f.0), text(&f.1)));
        Value::Mapping(pairs.collect())
    };
    let node = |n: &YamlNode| match n {
        YamlNode::Null => Value::Null,
        YamlNode::Text(t) => text(t),
        YamlNode::Fields(fields) => record(fields),
        YamlNode::Records(records) => records.iter().map(record).collect(),
    };
    let whole: Mapping = doc.iter().map(|e| (text(&e.0), node(&e.1))).collect();
    serde_yaml::to_string(&whole)
}

/// Every byte of every text counts four, and every text, record, list and nothing eight more; a
/// document is small enough where all that stays below the largest signed 32-bit number.
pub proof fn law_weights_add_up(
    doc: Seq<(Seq<char>, YamlNodeView)>,
    key: Seq<char>,
    text: Seq<char>,
    fields: Seq<(Seq<char>, Seq<char>)>,
    records: Seq<Seq<(Seq<char>, Seq<char>)>>,
)
    ensures
        doc_fits(doc) <==> doc_weight(doc) < i32::MAX,
        doc_weight(Seq::empty()) == 0,
        doc_weight(doc.push((key, YamlNodeView::Null))) == doc_weight(doc) + 4 * encode_utf8(
            key,
        ).len() + 16,
        doc_weight(doc.push((key, YamlNodeView::Text(text)))) == doc_weight(doc) + 4 * encode_utf8(
            key,
        ).len() + 4 * encode_utf8(text).len() + 16,
        node_weight(YamlNodeView::Fields(Seq::empty())) == 8,
        node_weight(YamlNodeView::Fields(fields.push((key, text)))) == node_weight(
            YamlNodeView::Fields(fields),
        ) + 4 * encode_utf8(key).len() + 4 * encode_utf8(text).len() + 16,
        node_weight(YamlNodeView::Records(Seq::empty())) == 8,
        node_weight(YamlNodeView::Records(records.push(fields))) == node_weight(
            YamlNodeView::Records(records),
        ) + node_weight(YamlNodeView::Fields(fields)),
        doc_weight(doc.push((key, YamlNodeView::Fields(fields)))) == doc_weight(doc) + 4
            * encode_utf8(key).len() + 8 + node_weight(YamlNodeView::Fields(fields)),
        doc_weight(doc.push((key, YamlNodeView::Records(records)))) == doc_weight(doc) + 4
            * encode_utf8(key).len() + 8 + node_weight(YamlNodeView::Records(records)),
{
    assert(doc.push((key, YamlNodeView::Null)).drop_last() =~= doc);
    assert(doc.push((key, YamlNodeView::Text(text))).drop_last() =~= doc);
    assert(doc.push((key, YamlNodeView::Fields(fields))).drop_last() =~= doc);
    assert(doc.push((key, YamlNodeView::Records(records))).drop_last() =~= doc);
    assert(fields.push((key, text)).drop_last() =~= fields);
    assert(records.push(fields).drop_last() =~= records);
}

} // verus!
