use vstd::prelude::*;
use vstd::utf8::encode_utf8;

verus! {

#[verifier::external_type_specification]
#[verifier::external_body]
pub struct ExYamlValue(serde_yaml::Value);

#[verifier::external_type_specification]
#[verifier::external_body]
pub struct ExYamlError(serde_yaml::Error);

/// A YAML document as a tree; mappings keep their entries in document order.
#[derive(Debug)]
pub enum Yaml {
    Null,
    /// A boolean or a number.
    Scalar,
    Text(String),
    List(Vec<Yaml>),
    Dict(Vec<(Yaml, Yaml)>),
}

/// The longest line, in bytes, that configuration text may hold. Block
/// nesting in YAML is no deeper than the column it reaches, so this bounds how
/// deep the YAML loader recurses.
pub const MAX_LINE_BYTES: usize = 1024;

/// How many bytes before position `i` follow the last newline.
pub open spec fn run_before(b: Seq<u8>, i: int) -> nat
    decreases i,
{
    if i <= 0 {
        0
    } else if b[i - 1] == 10u8 {
        0
    } else {
        run_before(b, i - 1) + 1
    }
}

/// No line of the bytes is longer than `MAX_LINE_BYTES`.
pub open spec fn lines_within(b: Seq<u8>) -> bool {
    forall|i: int| 0 <= i <= b.len() ==> #[trigger] run_before(b, i) <= MAX_LINE_BYTES
}

/// The document that a YAML text denotes, when serde_yaml accepts it.
pub uninterp spec fn yaml_document(text: Seq<char>) -> Option<Yaml>;

/// Relies on serde_yaml::from_str into serde_yaml::Value: the value depends on
/// the text alone. It is an error where the text is not YAML, and also for
/// empty text, several documents, or nesting deeper than 128. The loader
/// recurses once per nesting level before that depth is checked, so the
/// lines are bounded.
#[verifier::external_body]
pub(crate) fn parse_yaml(text: &str) -> (r: Result<Yaml, serde_yaml::Error>)
    requires
        lines_within(encode_utf8(text@)),
    ensures
        r is Ok <==> yaml_document(text@) is Some,
        r is Ok ==> yaml_document(text@) == Some(r->Ok_0),
{
    serde_yaml::from_str::<serde_yaml::Value>(text).map(|v| tree(&v))
}

/// Relies on the variants of serde_yaml::Value and on Mapping::iter, which
/// visits the entries in insertion order: copies the value one for one.
#[verifier::external_body]
fn tree(v: &serde_yaml::Value) -> Yaml {
    match v {
        serde_yaml::Value::Null => Yaml::Null,
        serde_yaml::Value::Bool(_) => Yaml::Scalar,
        serde_yaml::Value::Number(_) => Yaml::Scalar,
        serde_yaml::Value::String(s) => Yaml::Text(s.clone()),
        serde_yaml::Value::Sequence(items) => Yaml::List(items.iter().map(tree).collect()),
        serde_yaml::Value::Mapping(m) => Yaml::Dict(m.iter().map(|(k, x)| (tree(k), tree(x))).collect()),
    }
}

/// Whether every line of the text is short enough to be parsed.
pub fn lines_short_enough(text: &str) -> (r: bool)
    ensures
        r == lines_within(encode_utf8(text@)),
{
    let b = text.as_bytes();
    let mut run: usize = 0;
    let mut i: usize = 0;
    while i < b.len()
        invariant
            0 <= i <= b.len(),
            b@ == encode_utf8(text@),
            run == run_before(b@, i as int),
            forall|k: int| 0 <= k <= i ==> #[trigger] run_before(b@, k) <= MAX_LINE_BYTES,
        decreases b.len() - i,
    {
        if b[i] == 10u8 {
            run = 0;
        } else {
            run = run + 1;
        }
        if run > MAX_LINE_BYTES {
            assert(run_before(b@, i as int + 1) > MAX_LINE_BYTES);
            return false;
        }
        i = i + 1;
    }
    true
}

} // verus!
