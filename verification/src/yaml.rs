use vstd::prelude::*;

verus! {

#[verifier::external_type_specification]
#[verifier::external_body]
pub struct ExYamlValue(serde_yaml::Value);

#[verifier::external_type_specification]
#[verifier::external_body]
pub struct ExYamlError(serde_yaml::Error);

/// Whether a text is a well-formed document: parsing depends on the text alone.
pub uninterp spec fn yaml_accepts(s: Seq<char>) -> bool;

/// The document a text parses to, meaningful only where `yaml_accepts` holds:
/// parsing is a function of the text alone.
pub uninterp spec fn yaml_doc(s: Seq<char>) -> serde_yaml::Value;

/// Whether the document's top-level mapping holds the given key.
pub uninterp spec fn yaml_has_key(v: serde_yaml::Value, key: Seq<char>) -> bool;

/// The node under a key of the document's top-level mapping, meaningful only
/// where `yaml_has_key` holds: lookup is a function of document and key alone.
pub uninterp spec fn yaml_node_at(v: serde_yaml::Value, key: Seq<char>) -> serde_yaml::Value;

/// The list of strings a document node stands for, or `None` where the node is
/// not such a list.
pub uninterp spec fn yaml_string_list(v: serde_yaml::Value) -> Option<Seq<Seq<char>>>;

/// What a metadata block's interior declares: nothing where the document has
/// no "includes" key, that key's list of strings where it holds one, and a
/// refusal (`None`) where the text does not parse or the key holds anything
/// but a list of strings.
pub open spec fn declared_of(s: Seq<char>) -> Option<Seq<Seq<char>>> {
    if !yaml_accepts(s) {
        None
    } else if !yaml_has_key(yaml_doc(s), "includes"@) {
        Some(Seq::empty())
    } else {
        yaml_string_list(yaml_node_at(yaml_doc(s), "includes"@))
    }
}

/// Relies on serde_yaml::from_str: whether the text parses, and to which
/// document, depends on its content alone; the parsed document is handed back
/// as is.
#[verifier::external_body]
pub fn get_serde_value(frontmatter_str: &str) -> (r: Result<serde_yaml::Value, serde_yaml::Error>)
    ensures
        r is Ok <==> yaml_accepts(frontmatter_str@),
        r matches Ok(v) ==> v == yaml_doc(frontmatter_str@),
{
    serde_yaml::from_str(frontmatter_str)
}

/// Relies on serde_yaml::Value::get with a string key: it hands back `Some`
/// exactly when the document's top-level mapping holds the key — and then the
/// node stored under it — and `None` on any document that is not a mapping.
#[verifier::external_body]
fn value_get<'a>(v: &'a serde_yaml::Value, key: &str) -> (r: Option<&'a serde_yaml::Value>)
    ensures
        r is Some <==> yaml_has_key(*v, key@),
        r matches Some(node) ==> *node == yaml_node_at(*v, key@),
{
    v.get(key)
}

/// Relies on serde_yaml::from_value for `Vec<String>` (the argument is cloned
/// first, as from_value consumes it): a node either stands for a list of
/// strings or the conversion is refused, by the node's content alone.
#[verifier::external_body]
fn value_string_list(v: &serde_yaml::Value) -> (r: Result<Vec<String>, serde_yaml::Error>)
    ensures
        match r {
            Ok(names) => yaml_string_list(*v) == Some(names.deep_view()),
            Err(_) => yaml_string_list(*v) is None,
        },
{
    serde_yaml::from_value(v.clone())
}

/// Relies on ToString::to_string on serde_yaml::Error, for diagnostics only:
/// nothing is assumed of the text.
#[verifier::external_body]
fn yaml_error_text(e: &serde_yaml::Error) -> String {
    e.to_string()
}

/// Read the snippet names a metadata block declares: the "includes" key of the
/// block's interior, taken as a list of strings. A missing key is not an
/// error, it declares the empty list; an interior that does not parse, or an
/// "includes" key that is not a list of strings, is refused with the parser's
/// message — exactly as `declared_of` reads the text.
pub fn declared_includes(frontmatter_str: &str) -> (r: Result<Vec<String>, String>)
    ensures
        match r {
            Ok(names) => declared_of(frontmatter_str@) == Some(names.deep_view()),
            Err(_) => declared_of(frontmatter_str@) is None,
        },
{
    match get_serde_value(frontmatter_str) {
        Err(e) => Err(yaml_error_text(&e)),
        Ok(doc) => {
            match value_get(&doc, "includes") {
                None => {
                    let names: Vec<String> = Vec::new();
                    proof {
                        assert(names.deep_view() =~= Seq::<Seq<char>>::empty());
                    }
                    Ok(names)
                },
                Some(node) => {
                    match value_string_list(node) {
                        Ok(names) => Ok(names),
                        Err(e) => Err(yaml_error_text(&e)),
                    }
                },
            }
        },
    }
}

} // verus!
