use vstd::prelude::*;

verus! {

/// A YAML-like parameter value. Strings and numbers are held as UTF-8 bytes;
/// a number holds its canonical text. A mapping holds its entries in order,
/// and of two entries with the same key the later one counts.
#[derive(Debug, PartialEq, Eq)]
pub enum ParamValue {
    Null,
    Bool(bool),
    Number(Vec<u8>),
    Text(Vec<u8>),
    Sequence(Vec<ParamValue>),
    Mapping(Vec<(ParamValue, ParamValue)>),
}

/// The value under text key `key` in the entries `m`: the last entry whose key
/// is that text.
pub open spec fn field(m: Seq<(ParamValue, ParamValue)>, key: Seq<u8>) -> Option<ParamValue>
    decreases m.len(),
{
    if m.len() == 0 {
        None
    } else {
        match m.last().0 {
            ParamValue::Text(k) if k@ == key => Some(m.last().1),
            _ => field(m.drop_last(), key),
        }
    }
}

pub fn bytes_eq(a: &Vec<u8>, b: &Vec<u8>) -> (r: bool)
    ensures
        r == (a@ == b@),
{
    if a.len() != b.len() {
        return false;
    }
    let mut i: usize = 0;
    while i < a.len()
        invariant
            a@.len() == b@.len(),
            i <= a@.len(),
            a@.subrange(0, i as int) == b@.subrange(0, i as int),
        decreases a@.len() - i,
    {
        if a[i] != b[i] {
            assert(a@[i as int] != b@[i as int]);
            return false;
        }
        assert(a@.subrange(0, i + 1) == a@.subrange(0, i as int).push(a@[i as int]));
        assert(b@.subrange(0, i + 1) == b@.subrange(0, i as int).push(b@[i as int]));
        i = i + 1;
    }
    assert(a@ == a@.subrange(0, a@.len() as int));
    assert(b@ == b@.subrange(0, b@.len() as int));
    true
}

/// Looks up the text key `key` in mapping entries `m`.
pub fn get_field<'a>(m: &'a Vec<(ParamValue, ParamValue)>, key: &Vec<u8>) -> (r: Option<&'a ParamValue>)
    ensures
        r matches Some(v) ==> field(m@, key@) == Some(*v),
        r is None ==> field(m@, key@) is None,
{
    let mut i: usize = m.len();
    assert(m@.subrange(0, i as int) == m@);
    while i > 0
        invariant
            i <= m@.len(),
            field(m@, key@) == field(m@.subrange(0, i as int), key@),
        decreases i,
    {
        let ghost s = m@.subrange(0, i as int);
        assert(s.drop_last() == m@.subrange(0, i - 1));
        match &m[i - 1].0 {
            ParamValue::Text(k) => {
                if bytes_eq(k, key) {
                    return Some(&m[i - 1].1);
                }
            },
            _ => {},
        }
        i = i - 1;
    }
    None
}

#[verifier::external_type_specification]
#[verifier::external_body]
pub struct ExYamlValue(serde_yaml::Value);

/// The entries of the YAML mapping that `text` holds, where it holds one.
pub uninterp spec fn yaml_mapping(text: Seq<char>) -> Option<Seq<(ParamValue, ParamValue)>>;

/// Converts a YAML value variant by variant; a tagged value becomes what it
/// wraps and a number becomes its text.
#[verifier::external_body]
fn from_yaml(v: serde_yaml::Value) -> ParamValue {
    match v {
        serde_yaml::Value::Null => ParamValue::Null,
        serde_yaml::Value::Bool(b) => ParamValue::Bool(b),
        serde_yaml::Value::Number(n) => ParamValue::Number(n.to_string().into_bytes()),
        serde_yaml::Value::String(s) => ParamValue::Text(s.into_bytes()),
        serde_yaml::Value::Sequence(s) => ParamValue::Sequence(s.into_iter().map(from_yaml).collect()),
        serde_yaml::Value::Mapping(m) => ParamValue::Mapping(
            m.into_iter().map(|(k, v)| (from_yaml(k), from_yaml(v))).collect(),
        ),
        serde_yaml::Value::Tagged(t) => from_yaml(t.value),
    }
}

/// Relies on `serde_yaml::from_str::<serde_yaml::Mapping>`: whether `text`
/// is a YAML mapping, and its entries in order.
#[verifier::external_body]
pub(crate) fn parse_mapping(text: &String) -> (r: Option<Vec<(ParamValue, ParamValue)>>)
    ensures
        r is Some == yaml_mapping(text@) is Some,
        r matches Some(m) ==> yaml_mapping(text@) == Some(m@),
{
    let m = serde_yaml::from_str::<serde_yaml::Mapping>(text).ok()?;
    Some(m.into_iter().map(|(k, v)| (from_yaml(k), from_yaml(v))).collect())
}

} // verus!
