//! Page metadata: the YAML front matter of a page, kept as serde_yaml_ng's mapping so that
//! entries the journal does not know survive a save.
use vstd::prelude::*;
use serde_yaml_ng::{Mapping, Value};
use crate::sessions::opt_view;

verus! {

#[verifier::external_type_specification]
#[verifier::external_body]
pub struct ExMapping(serde_yaml_ng::Mapping);

/// What a YAML mapping holds under untagged string keys: for each such key, its value when
/// that value is a string, and nothing when it is another kind of value.
pub uninterp spec fn mapping_texts(m: Mapping) -> Map<Seq<char>, Option<Seq<char>>>;

/// What serde_yaml_ng reads from a YAML text as a mapping: its entries as above, or the
/// text of the error that it reports.
pub uninterp spec fn yaml_mapping_reading(text: Seq<char>) -> Result<Map<Seq<char>, Option<Seq<char>>>, Seq<char>>;

/// Whether serde_yaml_ng can write the mapping: its writer refuses only bytes (which no
/// YAML value holds), a tag placed directly on a tagged value, and output that is not
/// UTF-8 (which its emitter never produces); a mapping read from YAML text or built from
/// strings holds none of these.
pub uninterp spec fn mapping_writable(m: Mapping) -> bool;

/// The YAML text that serde_yaml_ng writes for a mapping: its entries in order, each key
/// and value written as the emitter chooses.
pub uninterp spec fn yaml_text(m: Mapping) -> Seq<char>;

/// A YAML value as plain values: null, a boolean, an integer, a floating-point number by
/// the bits of its `f64`, a string, a sequence, a mapping as its entries in order, or a
/// value under a tag.
pub enum YamlNode {
    Null,
    Bool(bool),
    Int(int),
    Float(u64),
    Text(Seq<char>),
    List(Seq<YamlNode>),
    Entries(Seq<(YamlNode, YamlNode)>),
    Tagged(Seq<char>, Box<YamlNode>),
}

/// Everything a YAML mapping holds: its entries, key and value, in the mapping's order.
pub uninterp spec fn mapping_entries(m: Mapping) -> Seq<(YamlNode, YamlNode)>;

/// What serde_yaml_ng reads from a YAML text as a mapping, with all it holds as above, or
/// that it reports an error.
pub uninterp spec fn yaml_entries_reading(text: Seq<char>) -> Result<Seq<(YamlNode, YamlNode)>, ()>;

/// The bits of a floating-point NaN.
pub open spec fn nan_bits(b: u64) -> bool {
    (b as int / 0x10_0000_0000_0000) % 0x800 == 0x7ff && (b as int) % 0x10_0000_0000_0000 != 0
}

/// A value that YAML text written for it reads back as: no tag (a tag of the core schema,
/// such as `!!str`, is read as that schema's own kind of value), no NaN (only one NaN is
/// read back), and nested at most `depth` sequences and mappings deep (the reader stops
/// at a fixed depth).
pub open spec fn node_writes_back(n: YamlNode, depth: nat) -> bool
    decreases depth,
{
    match n {
        YamlNode::Float(b) => !nan_bits(b),
        YamlNode::Tagged(_, _) => false,
        YamlNode::List(items) => depth > 0
            && forall|i: int| 0 <= i < items.len() ==> node_writes_back(#[trigger] items[i], (depth - 1) as nat),
        YamlNode::Entries(es) => depth > 0
            && forall|i: int| 0 <= i < es.len() ==> node_writes_back(#[trigger] es[i].0, (depth - 1) as nat)
                && node_writes_back(es[i].1, (depth - 1) as nat),
        _ => true,
    }
}

/// The last thing written for a value is not a string that ends with a line break: the
/// break that ends such a block scalar is the last character of the YAML text.
pub open spec fn ends_without_break(n: YamlNode, depth: nat) -> bool
    decreases depth,
{
    match n {
        YamlNode::Text(s) => !(s.len() > 0 && s.last() == '\n'),
        YamlNode::List(items) => items.len() == 0 || (depth > 0 && ends_without_break(items.last(), (depth - 1) as nat)),
        YamlNode::Entries(es) => es.len() == 0 || (depth > 0 && ends_without_break(es.last().1, (depth - 1) as nat)),
        _ => true,
    }
}

/// How deep the values of a page's metadata may nest so that it reads back.
pub open spec fn metadata_depth() -> nat {
    100
}

/// Entries whose YAML text, without its final line break, reads back as the same entries.
pub open spec fn entries_write_back(es: Seq<(YamlNode, YamlNode)>) -> bool {
    &&& forall|i: int| 0 <= i < es.len() ==> node_writes_back(#[trigger] es[i].0, metadata_depth())
        && node_writes_back(es[i].1, metadata_depth())
    &&& es.len() > 0 ==> ends_without_break(es.last().1, metadata_depth())
}

/// Whether an entry has the key `k`.
pub open spec fn entries_has(es: Seq<(YamlNode, YamlNode)>, k: YamlNode) -> bool {
    exists|i: int| 0 <= i < es.len() && (#[trigger] es[i]).0 == k
}

/// Where the entry with the key `k` stands, when there is one.
pub open spec fn entry_index(es: Seq<(YamlNode, YamlNode)>, k: YamlNode) -> int {
    choose|i: int| 0 <= i < es.len() && (#[trigger] es[i]).0 == k
}

/// The entries after storing `v` under `k`: in place of the value of the entry with that
/// key, or as a new last entry.
pub open spec fn entries_set(es: Seq<(YamlNode, YamlNode)>, k: YamlNode, v: YamlNode) -> Seq<(YamlNode, YamlNode)> {
    if entries_has(es, k) {
        es.update(entry_index(es, k), (k, v))
    } else {
        es.push((k, v))
    }
}

/// A text on one line: no line feed, carriage return or NUL.
pub open spec fn fits_line(s: Seq<char>) -> bool {
    forall|i: int| 0 <= i < s.len() ==> #[trigger] s[i] != '\n' && s[i] != '\r' && s[i] != '\0'
}

/// The text stored under `key`, if the key is present with a string value.
pub open spec fn text_of(texts: Map<Seq<char>, Option<Seq<char>>>, key: Seq<char>) -> Option<Seq<char>> {
    if texts.contains_key(key) {
        texts[key]
    } else {
        None
    }
}

/// A mapping without entries.
pub open spec fn no_texts() -> Map<Seq<char>, Option<Seq<char>>> {
    Map::empty()
}

/// An empty mapping (`Mapping::new`).
/// Trusted: a new mapping has no entries, so nothing in it stops it being written.
#[verifier::external_body]
pub(crate) fn new_mapping() -> (r: Mapping)
    ensures
        mapping_texts(r) == no_texts(),
        mapping_entries(r) == Seq::<(YamlNode, YamlNode)>::empty(),
        mapping_writable(r),
{
    Mapping::new()
}

/// A copy of a mapping (`Clone::clone`).
/// Trusted: the copy has the same entries in the same order, so it can be written exactly
/// when the mapping it copies can.
#[verifier::external_body]
pub(crate) fn copy_mapping(m: &Mapping) -> (r: Mapping)
    ensures
        mapping_texts(r) == mapping_texts(*m),
        mapping_entries(r) == mapping_entries(*m),
        mapping_writable(r) == mapping_writable(*m),
{
    m.clone()
}

/// The string stored under a string key (`Mapping::get` and `Value::as_str`).
/// Trusted: `get` looks the key up as a string value and `as_str` gives the value when it
/// is a string, looking through a tag.
#[verifier::external_body]
pub(crate) fn mapping_text(m: &Mapping, key: &str) -> (r: Option<String>)
    ensures
        opt_view(r) == text_of(mapping_texts(*m), key@),
{
    m.get(Value::String(key.into())).and_then(Value::as_str).map(str::to_owned)
}

/// Whether a string key is present, whatever its value (`Mapping::contains_key`).
/// Trusted: `contains_key` looks the key up as a string value, which equals only an
/// untagged string key with the same text.
#[verifier::external_body]
pub(crate) fn mapping_has(m: &Mapping, key: &str) -> (r: bool)
    ensures
        r == mapping_texts(*m).contains_key(key@),
        r == entries_has(mapping_entries(*m), YamlNode::Text(key@)),
{
    m.contains_key(Value::String(key.into()))
}

/// Stores a string under a string key (`Mapping::insert`).
/// Trusted: the mapping is an `IndexMap`, whose `insert` replaces the value of an entry
/// with an equal key where it stands and otherwise adds the entry last, leaving the other
/// entries alone; a plain string key and value add nothing that the writer refuses.
#[verifier::external_body]
pub(crate) fn mapping_insert(m: &mut Mapping, key: &str, value: &str)
    ensures
        mapping_texts(*final(m)) == mapping_texts(*old(m)).insert(key@, Some(value@)),
        mapping_entries(*final(m)) == entries_set(mapping_entries(*old(m)), YamlNode::Text(key@), YamlNode::Text(value@)),
        mapping_writable(*old(m)) ==> mapping_writable(*final(m)),
{
    m.insert(Value::String(key.into()), Value::String(value.into()));
}

/// Reads YAML text as a mapping (`serde_yaml_ng::from_str`).
/// Trusted: the result is named by `yaml_mapping_reading` and, with all it holds, by
/// `yaml_entries_reading`; YAML text cannot put a second tag directly on a tagged value,
/// so what is read can be written.
#[verifier::external_body]
pub(crate) fn read_yaml_mapping(text: &str) -> (r: Result<Mapping, String>)
    ensures
        match r {
            Ok(m) => yaml_mapping_reading(text@) == Ok::<Map<Seq<char>, Option<Seq<char>>>, Seq<char>>(mapping_texts(m))
                && yaml_entries_reading(text@) == Ok::<Seq<(YamlNode, YamlNode)>, ()>(mapping_entries(m))
                && mapping_writable(m),
            Err(e) => yaml_mapping_reading(text@) == Err::<Map<Seq<char>, Option<Seq<char>>>, Seq<char>>(e@)
                && yaml_entries_reading(text@) is Err,
        },
{
    serde_yaml_ng::from_str::<Mapping>(text).map_err(|e| e.to_string())
}

/// Writes a mapping as YAML text (`serde_yaml_ng::to_string`).
/// Trusted: writing succeeds for a mapping the writer accepts, and the text, named by
/// `yaml_text`, is one document that ends in a line break and has no line `---`: libyaml's
/// `yaml_emitter_analyze_scalar` rules out a plain scalar that begins with `---`, and every
/// other line begins with a key, an indent or `- `. For entries that `entries_write_back`
/// admits, the text without its final line break reads back as the same entries:
/// serde_yaml_ng's `serialize_str` quotes a string that would read as another kind of
/// value, writes one with a line break as a block scalar, and `serialize_f64` writes a
/// number that reads back as the same `f64`. Of other mappings nothing is said of reading
/// back.
#[verifier::external_body]
pub(crate) fn write_yaml_mapping(m: &Mapping) -> (r: Result<String, String>)
    ensures
        mapping_writable(*m) ==> r is Ok,
        r matches Ok(t) ==> {
            &&& t@ == yaml_text(*m)
            &&& t@.len() > 0
            &&& t@.last() == '\n'
            &&& !crate::text::contains(t@, seq!['\n', '-', '-', '-', '\n'])
        },
        r matches Ok(t) ==> (entries_write_back(mapping_entries(*m)) ==> {
            &&& yaml_entries_reading(t@.drop_last()) == Ok::<Seq<(YamlNode, YamlNode)>, ()>(mapping_entries(*m))
            &&& yaml_mapping_reading(t@.drop_last())
                == Ok::<Map<Seq<char>, Option<Seq<char>>>, Seq<char>>(mapping_texts(*m))
        }),
{
    serde_yaml_ng::to_string(m).map_err(|e| e.to_string())
}

} // verus!
