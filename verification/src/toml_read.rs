use vstd::prelude::*;

verus! {

// Read-only access to a parsed TOML document tree. The tree itself is
// toml_edit's; its nodes are opaque here. Every access below is a pure read
// whose result is a function of the node value (and the text) alone, so each
// result carries a name, and the package module's specifications are stated
// over those names.

/// One node of a parsed TOML document (toml_edit's `Item`), opaque here.
#[verifier::external_type_specification]
#[verifier::external_body]
pub struct ExItem(toml_edit::Item);

/// Whether toml_edit parses the text: a function of the text alone.
pub uninterp spec fn toml_parses(s: Seq<char>) -> bool;

/// The root table of parsed TOML text: a function of the text alone.
pub uninterp spec fn toml_root(s: Seq<char>) -> toml_edit::Item;

/// What `Item::get` yields on a node and a key: the value under the key of a
/// table or inline table, `None` for a missing key or a non-table node.
pub uninterp spec fn spec_get(item: toml_edit::Item, key: Seq<char>) -> Option<toml_edit::Item>;

/// What `Item::get` yields on a node and an index: the element of an array
/// or array of tables, `None` past the end or for a non-array node.
pub uninterp spec fn spec_index(item: toml_edit::Item, i: int) -> Option<toml_edit::Item>;

/// The contents of a string node, `None` for any other node.
pub uninterp spec fn spec_str(item: toml_edit::Item) -> Option<Seq<char>>;

/// The length of an array node, `None` for any other node.
pub uninterp spec fn spec_array_len(item: toml_edit::Item) -> Option<int>;

/// The keys of a table or inline table node in document order, `None` for
/// any other node.
pub uninterp spec fn spec_table_keys(item: toml_edit::Item) -> Option<Seq<Seq<char>>>;

/// Relies on toml_edit: `str::parse::<DocumentMut>` parses TOML text and
/// `DocumentMut::as_item` is its root table, both deterministic over the
/// text; a parse failure is handed back as the error's message.
#[verifier::external_body]
pub(crate) fn parse_toml(s: &str) -> (r: Result<toml_edit::Item, String>)
    ensures
        r is Ok <==> toml_parses(s@),
        r matches Ok(it) ==> it == toml_root(s@),
{
    match s.parse::<toml_edit::DocumentMut>() {
        Ok(d) => Ok(d.as_item().clone()),
        Err(e) => Err(e.to_string()),
    }
}

/// Relies on toml_edit's `Item::get`: a pure read of the value under a key
/// of a table or inline table.
#[verifier::external_body]
pub(crate) fn item_get<'a>(item: &'a toml_edit::Item, key: &str) -> (r: Option<
    &'a toml_edit::Item,
>)
    ensures
        r is Some <==> spec_get(*item, key@) is Some,
        r matches Some(it) ==> *it == spec_get(*item, key@)->Some_0,
{
    item.get(key)
}

/// Relies on toml_edit's `Item::get`: a pure read of the element at an index
/// of an array or an array of tables.
#[verifier::external_body]
pub(crate) fn item_index<'a>(item: &'a toml_edit::Item, i: usize) -> (r: Option<
    &'a toml_edit::Item,
>)
    ensures
        r is Some <==> spec_index(*item, i as int) is Some,
        r matches Some(it) ==> *it == spec_index(*item, i as int)->Some_0,
{
    item.get(i)
}

/// Relies on toml_edit's `Item::as_str`: a pure read of the contents of a
/// string node.
#[verifier::external_body]
pub(crate) fn item_str(item: &toml_edit::Item) -> (r: Option<String>)
    ensures
        r is Some <==> spec_str(*item) is Some,
        r matches Some(s) ==> s@ == spec_str(*item)->Some_0,
{
    item.as_str().map(str::to_owned)
}

/// Relies on toml_edit's `Array::len` and `ArrayOfTables::len`: a pure read
/// of the length of an array node.
#[verifier::external_body]
pub(crate) fn item_array_len(item: &toml_edit::Item) -> (r: Option<usize>)
    ensures
        r is Some <==> spec_array_len(*item) is Some,
        r matches Some(n) ==> n as int == spec_array_len(*item)->Some_0,
{
    match item {
        toml_edit::Item::ArrayOfTables(a) => Some(a.len()),
        toml_edit::Item::Value(toml_edit::Value::Array(a)) => Some(a.len()),
        _ => None,
    }
}

/// Relies on toml_edit's `Item::as_table_like` and `TableLike::iter`: a pure
/// read of the keys of a table or inline table in document order. A TOML
/// table holds each key once, so the keys are pairwise distinct.
#[verifier::external_body]
pub(crate) fn item_table_keys(item: &toml_edit::Item) -> (r: Option<Vec<String>>)
    ensures
        r is Some <==> spec_table_keys(*item) is Some,
        r matches Some(ks) ==> ks.deep_view() == spec_table_keys(*item)->Some_0 && (forall|
            i: int,
            j: int,
        |
            0 <= i < j < ks@.len() ==> ks@[i]@ != ks@[j]@),
{
    item.as_table_like().map(|t| t.iter().map(|(k, _)| k.to_owned()).collect())
}

} // verus!
