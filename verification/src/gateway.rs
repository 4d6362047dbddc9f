//! The three gateway operations, specified against the store model.
//!
//! Upload walks the multipart fields in arrival order, writing each payload
//! under its file name and aborting the whole request on the first field
//! without one — earlier writes persist. Download fetches by exact key.
//! Listing reports, for every stored object, the final path segment of its
//! key (or the placeholder `unknown`) and its size in bytes.

use crate::error::FileError;
use crate::store::{map_of, put_entry, StoreModel};
use vstd::prelude::*;
use vstd::string::{StrSliceExecFns, StringExecFns};

verus! {

/// One object reported by the listing: its display name and size in bytes.
#[derive(Debug)]
pub struct FileInfo {
    pub name: String,
    pub size: usize,
}

/// One accepted file name, as the upload response reports it.
#[derive(Debug)]
pub struct UploadResponse {
    pub name: String,
}

/// One multipart field: the file name announced for it, if any, and its
/// byte payload.
pub struct UploadField {
    pub file_name: Option<String>,
    pub data: Vec<u8>,
}

/// The detail text of the input error for a field without a file name.
pub open spec fn missing_name_message() -> Seq<char> {
    "No file name provided"@
}

/// The detail text of the input error for a missing path parameter.
pub open spec fn missing_param_message() -> Seq<char> {
    "File name required"@
}

/// Every field announces a file name.
pub open spec fn all_named(fields: Seq<UploadField>) -> bool {
    forall|i: int| 0 <= i < fields.len() ==> (#[trigger] fields[i]).file_name is Some
}

/// The index of the first field without a file name (the field count when
/// every field has one).
pub open spec fn first_unnamed(fields: Seq<UploadField>) -> int
    decreases fields.len(),
{
    if fields.len() == 0 {
        0
    } else if fields[0].file_name is None {
        0
    } else {
        1 + first_unnamed(fields.drop_first())
    }
}

/// The store contents after the first `n` fields have been written, each
/// under its announced file name, in arrival order.
pub open spec fn store_after_puts(
    s: Seq<(Seq<char>, Seq<u8>)>,
    fields: Seq<UploadField>,
    n: int,
) -> Seq<(Seq<char>, Seq<u8>)>
    decreases n,
{
    if n <= 0 {
        s
    } else {
        put_entry(
            store_after_puts(s, fields, n - 1),
            fields[n - 1].file_name->0@,
            fields[n - 1].data@,
        )
    }
}

proof fn lemma_first_unnamed_at(fields: Seq<UploadField>, i: int)
    requires
        0 <= i < fields.len(),
        fields[i].file_name is None,
        forall|j: int| 0 <= j < i ==> (#[trigger] fields[j]).file_name is Some,
    ensures
        first_unnamed(fields) == i,
    decreases i,
{
    if i > 0 {
        let t = fields.drop_first();
        assert(fields[0].file_name is Some);
        assert forall|j: int| 0 <= j < i - 1 implies (#[trigger] t[j]).file_name is Some by {
            assert(fields[j + 1].file_name is Some);
        }
        assert(t[i - 1].file_name is None);
        lemma_first_unnamed_at(t, i - 1);
    }
}

/// Accepts a multipart field's announced file name, or rejects the whole
/// request when the field has none.
pub fn require_file_name(file_name: &Option<String>) -> (r: Result<String, FileError>)
    ensures
        file_name matches Some(n) ==> (r matches Ok(m) && m == n),
        file_name is None ==> (r matches Err(e) && e is Input && e.message_view()
            == missing_name_message()),
{
    match file_name {
        Some(n) => Ok(n.clone()),
        None => Err(FileError::Input(String::from_str("No file name provided"))),
    }
}

/// Accepts the file name taken from the URL path, or rejects the request
/// when the routing supplied none.
pub fn require_path_param(file_name: &Option<String>) -> (r: Result<String, FileError>)
    ensures
        file_name matches Some(n) ==> (r matches Ok(m) && m == n),
        file_name is None ==> (r matches Err(e) && e is Input && e.message_view()
            == missing_param_message()),
{
    match file_name {
        Some(n) => Ok(n.clone()),
        None => Err(FileError::Input(String::from_str("File name required"))),
    }
}

/// Writes every field's payload under its file name, in arrival order. With
/// all fields named, the response lists the written names in that order;
/// one field without a name fails the whole request with the input error,
/// and the fields before it stay written — there is no rollback.
pub fn upload_file(store: &mut StoreModel, fields: &Vec<UploadField>) -> (r: Result<
    Vec<String>,
    FileError,
>)
    requires
        old(store).wf(),
    ensures
        final(store).wf(),
        all_named(fields@) ==> (r matches Ok(names) && names@.len() == fields@.len() && (forall|
            i: int,
        |
            0 <= i < fields@.len() ==> (#[trigger] names@[i])@ == fields@[i].file_name->0@)
            && final(store)@ == store_after_puts(old(store)@, fields@, fields@.len() as int)),
        !all_named(fields@) ==> (r matches Err(e) && e is Input && e.message_view()
            == missing_name_message() && final(store)@ == store_after_puts(
            old(store)@,
            fields@,
            first_unnamed(fields@),
        )),
{
    let ghost s0 = store@;
    let mut names: Vec<String> = Vec::new();
    let mut i: usize = 0;
    while i < fields.len()
        invariant
            i <= fields@.len(),
            old(store)@ == s0,
            store.wf(),
            store@ == store_after_puts(s0, fields@, i as int),
            names@.len() == i,
            forall|j: int| 0 <= j < i ==> (#[trigger] fields@[j]).file_name is Some,
            forall|j: int| 0 <= j < i ==> (#[trigger] names@[j])@ == fields@[j].file_name->0@,
        decreases fields@.len() - i,
    {
        let field = &fields[i];
        let name = match require_file_name(&field.file_name) {
            Ok(n) => n,
            Err(e) => {
                proof {
                    lemma_first_unnamed_at(fields@, i as int);
                    assert(!all_named(fields@));
                }
                return Err(e);
            },
        };
        let name_for_response = name.clone();
        let data = vstd::slice::slice_to_vec(field.data.as_slice());
        store.put(name, data);
        proof {
            assert(store@ == store_after_puts(s0, fields@, i as int + 1));
        }
        names.push(name_for_response);
        i += 1;
    }
    proof {
        assert(all_named(fields@));
    }
    Ok(names)
}

/// Fetches the object named by the URL path parameter: the input error when
/// routing supplied no name, the stored bytes when the name is present, and
/// the not-found storage error otherwise.
pub fn get_file(store: &StoreModel, file_name: &Option<String>) -> (r: Result<Vec<u8>, FileError>)
    ensures
        file_name is None ==> (r matches Err(e) && e is Input && e.message_view()
            == missing_param_message()),
        file_name matches Some(n) ==> ((map_of(store@).contains_key(n@) ==> (r matches Ok(d) && d@
            == map_of(store@)[n@])) && (!map_of(store@).contains_key(n@) ==> (r matches Err(e)
            && e is Storage && e.message_view() == crate::store::not_found_message()))),
{
    let name = match require_path_param(file_name) {
        Ok(n) => n,
        Err(e) => {
            return Err(e);
        },
    };
    store.get(&name)
}

/// The part of a key after its last `/`; empty when the key ends in `/` or
/// is empty.
pub open spec fn name_part(key: Seq<char>) -> Seq<char>
    decreases key.len(),
{
    if key.len() == 0 {
        Seq::empty()
    } else if key.last() == '/' {
        Seq::empty()
    } else {
        name_part(key.drop_last()).push(key.last())
    }
}

/// The name the listing reports for a stored key: the final path segment,
/// or the placeholder `unknown` when the key yields none.
pub open spec fn display_name(key: Seq<char>) -> Seq<char> {
    if name_part(key).len() == 0 {
        "unknown"@
    } else {
        name_part(key)
    }
}

proof fn lemma_name_part_suffix(s: Seq<char>, i: int)
    requires
        0 <= i <= s.len(),
        forall|j: int| i <= j < s.len() ==> s[j] != '/',
        i > 0 ==> s[i - 1] == '/',
    ensures
        name_part(s) == s.subrange(i, s.len() as int),
    decreases s.len(),
{
    if s.len() == 0 {
        assert(name_part(s) =~= s.subrange(0, 0));
    } else if i == s.len() {
        assert(s.last() == '/');
        assert(name_part(s) =~= s.subrange(i, s.len() as int));
    } else {
        assert(s[s.len() - 1] != '/');
        let t = s.drop_last();
        assert forall|j: int| i <= j < t.len() implies t[j] != '/' by {
            assert(s[j] != '/');
        }
        lemma_name_part_suffix(t, i);
        assert(name_part(s) == t.subrange(i, t.len() as int).push(s.last()));
        assert(t.subrange(i, t.len() as int).push(s.last()) =~= s.subrange(i, s.len() as int));
    }
}

/// Derives the listing name from a storage key: everything after the last
/// `/`, or `unknown` when nothing follows it.
pub fn file_name_of_key(key: &String) -> (r: String)
    ensures
        r@ == display_name(key@),
{
    let s = key.as_str();
    let n = s.unicode_len();
    let mut start: usize = 0;
    let mut j: usize = 0;
    while j < n
        invariant
            n == s@.len(),
            j <= n,
            start <= j,
            forall|t: int| start <= t < j ==> s@[t] != '/',
            start > 0 ==> s@[start - 1] == '/',
        decreases n - j,
    {
        if s.get_char(j) == '/' {
            start = j + 1;
        }
        j += 1;
    }
    proof {
        lemma_name_part_suffix(s@, start as int);
    }
    if start == n {
        String::from_str("unknown")
    } else {
        s.substring_char(start, n).to_owned()
    }
}

/// Enumerates the whole store: one entry per stored object, in storage
/// order, each reporting the display name of its key and its size in bytes.
pub fn get_all_files(store: &StoreModel) -> (r: Vec<FileInfo>)
    ensures
        r@.len() == store@.len(),
        forall|i: int|
            0 <= i < store@.len() ==> (#[trigger] r@[i]).name@ == display_name(store@[i].0)
                && r@[i].size == store@[i].1.len(),
{
    let entries = store.list_entries();
    let mut r: Vec<FileInfo> = Vec::new();
    let mut i: usize = 0;
    while i < entries.len()
        invariant
            entries@.len() == store@.len(),
            forall|k: int|
                0 <= k < store@.len() ==> (#[trigger] entries@[k]).0@ == store@[k].0
                    && entries@[k].1 == store@[k].1.len(),
            i <= entries@.len(),
            r@.len() == i,
            forall|k: int|
                0 <= k < i ==> (#[trigger] r@[k]).name@ == display_name(store@[k].0) && r@[k].size
                    == store@[k].1.len(),
        decreases entries@.len() - i,
    {
        let name = file_name_of_key(&entries[i].0);
        let size = entries[i].1;
        r.push(FileInfo { name, size });
        i += 1;
    }
    r
}

/// A name that no upload ever wrote stays absent: starting from a store
/// without the key, writing fields whose names all differ from it leaves the
/// key absent, so a download of that name fails with the storage error.
pub proof fn lemma_never_uploaded_absent(
    s: Seq<(Seq<char>, Seq<u8>)>,
    fields: Seq<UploadField>,
    n: int,
    k: Seq<char>,
)
    requires
        0 <= n <= fields.len(),
        !map_of(s).contains_key(k),
        forall|i: int| 0 <= i < n ==> (#[trigger] fields[i]).file_name->0@ != k,
    ensures
        !map_of(store_after_puts(s, fields, n)).contains_key(k),
    decreases n,
{
    if n > 0 {
        lemma_never_uploaded_absent(s, fields, n - 1, k);
        crate::store::lemma_put_entry_map(
            store_after_puts(s, fields, n - 1),
            fields[n - 1].file_name->0@,
            fields[n - 1].data@,
        );
    }
}

} // verus!
