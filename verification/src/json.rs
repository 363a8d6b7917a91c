//! Reading a configuration update out of one JSON value.
//!
//! The JSON tree itself stays opaque, but each lookup an update needs is a
//! pure function of the value it inspects, so its result carries a name:
//! what a pointer resolves to, the bytes of a string value, the elements of
//! an array value.  The update's fields are then pinned exactly in terms of
//! those names.

use vstd::prelude::*;

use crate::config::ConfigUpdate;

verus! {

#[verifier::external_type_specification]
#[verifier::external_body]
pub struct ExValue(serde_json::Value);

/// What `serde_json::Value::pointer` resolves a JSON Pointer to; the lookup
/// depends on the value and the pointer alone.
pub uninterp spec fn json_ptr_of(v: serde_json::Value, ptr: Seq<char>) -> Option<serde_json::Value>;

/// The UTF-8 bytes of a JSON string value, nothing for a value of any other
/// type; depends on the value alone.
pub uninterp spec fn json_str_of(v: serde_json::Value) -> Option<Seq<u8>>;

/// The elements of a JSON array value, nothing for a value of any other
/// type; depends on the value alone.
pub uninterp spec fn json_arr_of(v: serde_json::Value) -> Option<Seq<serde_json::Value>>;

/// Relies on serde_json::Value::pointer: looks a value up by JSON Pointer,
/// a pure lookup through the tree.
#[verifier::external_body]
fn json_pointer<'a>(v: &'a serde_json::Value, ptr: &str) -> (r: Option<&'a serde_json::Value>)
    ensures
        match r {
            Some(x) => json_ptr_of(*v, ptr@) == Some(*x),
            None => json_ptr_of(*v, ptr@) is None,
        },
{
    v.pointer(ptr)
}

/// Relies on serde_json::Value::as_str: the value's characters when it is a
/// string, as UTF-8 bytes.
#[verifier::external_body]
fn json_as_str_bytes(v: &serde_json::Value) -> (r: Option<Vec<u8>>)
    ensures
        match r {
            Some(b) => json_str_of(*v) == Some(b@),
            None => json_str_of(*v) is None,
        },
{
    v.as_str().map(|s| s.as_bytes().to_vec())
}

/// Relies on serde_json::Value::as_array: the element list when the value
/// is an array.
#[verifier::external_body]
fn json_as_array<'a>(v: &'a serde_json::Value) -> (r: Option<&'a Vec<serde_json::Value>>)
    ensures
        match r {
            Some(items) => json_arr_of(*v) == Some(items@),
            None => json_arr_of(*v) is None,
        },
{
    v.as_array()
}

/// The bytes at a pointer, when it resolves to a string.
pub open spec fn spec_string_at(v: serde_json::Value, ptr: Seq<char>) -> Option<Seq<u8>> {
    match json_ptr_of(v, ptr) {
        Some(x) => json_str_of(x),
        None => None,
    }
}

/// The byte lists at a pointer, when it resolves to an array whose elements
/// are all strings.
pub open spec fn spec_folders_at(v: serde_json::Value, ptr: Seq<char>) -> Option<Seq<Seq<u8>>> {
    match json_ptr_of(v, ptr) {
        Some(x) => match json_arr_of(x) {
            Some(items) => {
                if forall|k: int| 0 <= k < items.len() ==> (json_str_of(#[trigger] items[k]) is Some) {
                    Some(Seq::new(items.len(), |k: int| json_str_of(items[k])->Some_0))
                } else {
                    None
                }
            },
            None => None,
        },
        None => None,
    }
}

/// The views of a list of byte vectors.
pub open spec fn byte_views(folders: Seq<Vec<u8>>) -> Seq<Seq<u8>> {
    Seq::new(folders.len(), |k: int| folders[k]@)
}

/// The string at a pointer, when the pointer resolves to a string.
fn string_field(v: &serde_json::Value, ptr: &str) -> (r: Option<Vec<u8>>)
    ensures
        match r {
            Some(b) => spec_string_at(*v, ptr@) == Some(b@),
            None => spec_string_at(*v, ptr@) is None,
        },
{
    match json_pointer(v, ptr) {
        Some(x) => json_as_str_bytes(x),
        None => None,
    }
}

/// Takes a configuration update apart into its plain fields, each pinned by
/// the lookups: a field is filled exactly when its pointer resolves to a
/// string — for the folder list, to an array of strings — and then carries
/// those very bytes.
pub fn parse_config_update(v: &serde_json::Value) -> (u: ConfigUpdate)
    ensures
        match u.dialect {
            Some(b) => spec_string_at(*v, "/dialect"@) == Some(b@),
            None => spec_string_at(*v, "/dialect"@) is None,
        },
        match u.stdlib_folder {
            Some(b) => spec_string_at(*v, "/stdlib_folder"@) == Some(b@),
            None => spec_string_at(*v, "/stdlib_folder"@) is None,
        },
        match u.sender_address {
            Some(b) => spec_string_at(*v, "/sender_address"@) == Some(b@),
            None => spec_string_at(*v, "/sender_address"@) is None,
        },
        match u.modules_folders {
            Some(fs) => spec_folders_at(*v, "/modules_folders"@) == Some(byte_views(fs@)),
            None => spec_folders_at(*v, "/modules_folders"@) is None,
        },
{
    let dialect = string_field(v, "/dialect");
    let stdlib_folder = string_field(v, "/stdlib_folder");
    let sender_address = string_field(v, "/sender_address");
    let modules_folders = match json_pointer(v, "/modules_folders") {
        Some(x) => {
            match json_as_array(x) {
                Some(items) => {
                    let ghost elems = items@;
                    let mut folders: Vec<Vec<u8>> = Vec::new();
                    let mut ok = true;
                    let mut i: usize = 0;
                    let n = items.len();
                    while i < n && ok
                        invariant
                            i <= n,
                            n == elems.len(),
                            items@ == elems,
                            ok ==> folders@.len() == i,
                            ok ==> forall|k: int|
                                0 <= k < i ==> (json_str_of(#[trigger] elems[k]) is Some)
                                    && folders@[k]@ == json_str_of(elems[k])->Some_0,
                            !ok ==> exists|k: int|
                                0 <= k < elems.len() && (json_str_of(#[trigger] elems[k]) is None),
                        decreases n - i,
                    {
                        match json_as_str_bytes(&items[i]) {
                            Some(f) => {
                                folders.push(f);
                            },
                            None => {
                                ok = false;
                            },
                        }
                        i = i + 1;
                    }
                    if ok {
                        proof {
                            assert(byte_views(folders@) =~= Seq::new(
                                elems.len(),
                                |k: int| json_str_of(elems[k])->Some_0,
                            ));
                        }
                        Some(folders)
                    } else {
                        None
                    }
                },
                None => None,
            }
        },
        None => None,
    };
    ConfigUpdate { dialect, stdlib_folder, modules_folders, sender_address }
}

} // verus!
