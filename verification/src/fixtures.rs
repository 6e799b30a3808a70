//! Files and checks of the fault scenarios.

use bytes::Bytes;
use vstd::prelude::*;

use crate::backend::{self, ReadBackend, WriteBackend};
use crate::buffer::{self, BytesList};
use crate::error::{BackendCall, BackendOp, RusticError, RusticResult};
use crate::fault::{self, Fault, FaultInjectionBackend};
use crate::file_type::FileType;
use crate::id::Id;
use crate::in_memory::InMemoryBackend;
use crate::rng::{self, content};
use crate::text::{self, contains, owned, push_decimal, push_decimal_padded};

verus! {

/// Creates a fault injection backend over an empty backend in memory.
pub fn fault_injection_backend<R: Fn(&BackendCall) -> Option<Fault>>() -> (r: FaultInjectionBackend<
    InMemoryBackend,
    R,
>)
    ensures
        r.rule is None,
        !r.inner.cold(),
        forall|tpe: FileType| #[trigger] r.inner.files(tpe) == Map::<Id, Seq<u8>>::empty(),
        forall|tpe: FileType| #[trigger] r.inner.warmed(tpe) == Set::<Id>::empty(),
{
    FaultInjectionBackend::new(InMemoryBackend::new())
}

/// A file of a scenario: its path, and its content.
#[derive(Debug)]
pub struct ScenarioFile {
    /// The path, relative to the directory of the files.
    pub name: String,
    /// The content.
    pub data: Vec<u8>,
}

/// The number of bytes of each file that has its own pack.
pub const OWN_PACK_SIZE: usize = 4_000;

/// Whether `file` is the file with the index `index` of the files that each have their own pack.
pub open spec fn is_own_pack_file(file: ScenarioFile, index: nat, seed: nat) -> bool {
    &&& file.name@ == "f"@ + text::decimal_padded(index, 2)
    &&& file.data@ == rng::content_of((seed + index) as u64, OWN_PACK_SIZE as nat)
}

/// Gives `count` files, to save each in its own pack.
///
/// # Arguments
///
/// * `count` - The number of files
/// * `seed` - The seed of the content of the first file. Each next file uses the next seed.
pub fn files_in_own_packs(count: u64, seed: u64) -> (r: Vec<ScenarioFile>)
    requires
        count <= usize::MAX,
        count == 0 || seed + count - 1 <= u64::MAX,
    ensures
        r.len() == count,
        forall|i: int| 0 <= i < r.len() ==> is_own_pack_file(#[trigger] r@[i], i as nat, seed as nat),
{
    let mut files: Vec<ScenarioFile> = Vec::new();
    for index in 0..count
        invariant
            count <= usize::MAX,
            count == 0 || seed + count - 1 <= u64::MAX,
            files.len() == index,
            forall|i: int|
                0 <= i < index ==> is_own_pack_file(#[trigger] files@[i], i as nat, seed as nat),
    {
        let mut name = owned("f");
        push_decimal_padded(&mut name, index, 2);
        files.push(ScenarioFile { name, data: content(seed + index, OWN_PACK_SIZE) });
    }
    files
}

/// Files that each have their own pack have different contents, so no two of them share data.
pub proof fn law_own_pack_files_differ(
    a: ScenarioFile,
    i: nat,
    b: ScenarioFile,
    j: nat,
    seed: nat,
)
    requires
        is_own_pack_file(a, i, seed),
        is_own_pack_file(b, j, seed),
        i != j,
        seed + i < rng::DISTINCT_SEEDS,
        seed + j < rng::DISTINCT_SEEDS,
    ensures
        a.data@ != b.data@,
{
    rng::law_small_seeds_differ((seed + i) as u64, (seed + j) as u64);
    rng::law_contents_differ((seed + i) as u64, (seed + j) as u64, OWN_PACK_SIZE as nat);
}

/// The number of zeros at the end of a file for a sparse restore.
pub const SPARSE_ZEROS: usize = 9_437_184;

/// The number of bytes before the zeros of a file for a sparse restore.
pub const SPARSE_DATA: usize = 1_048_576;

/// Gives the content for `seed`, and then zeros.
pub fn content_then_zeros(seed: u64, len: usize, zeros: usize) -> (r: Vec<u8>)
    requires
        len + zeros <= usize::MAX,
    ensures
        r@ == rng::content_of(seed, len as nat) + Seq::new(zeros as nat, |i: int| 0u8),
{
    let mut data = content(seed, len);
    let ghost start = data@;
    for i in 0..zeros
        invariant
            data@ == start + Seq::new(i as nat, |j: int| 0u8),
    {
        data.push(0);
        assert(data@ =~= start + Seq::new((i + 1) as nat, |j: int| 0u8));
    }
    data
}

/// The number of bytes of a block that the metadata of a file counts.
pub const BLOCK: u64 = 512;

/// Checks that a file of `len` bytes uses blocks for less than `len` bytes.
///
/// # Errors
///
/// * If the file uses blocks for `len` bytes or more.
pub fn check_is_sparse(blocks: u64, len: u64) -> (r: Result<(), String>)
    requires
        blocks * BLOCK <= u64::MAX,
    ensures
        r is Ok <==> blocks * BLOCK < len,
        r matches Err(message) ==> message@ == "The restored file uses "@ + text::decimal(
            (blocks * BLOCK) as nat,
        ) + " bytes in "@ + text::decimal(blocks as nat) + " blocks for "@ + text::decimal(
            len as nat,
        ) + " bytes. A sparse file uses less."@,
{
    let allocated: u64 = blocks * BLOCK;
    if allocated >= len {
        let mut out = owned("The restored file uses ");
        push_decimal(&mut out, allocated);
        out.append(" bytes in ");
        push_decimal(&mut out, blocks);
        out.append(" blocks for ");
        push_decimal(&mut out, len);
        out.append(" bytes. A sparse file uses less.");
        Err(out)
    } else {
        Ok(())
    }
}

/// Checks that the restored file has the length and the content of the saved file.
///
/// # Errors
///
/// * If the length or the content differs.
pub fn check_restored_file(restored: &Vec<u8>, saved: &Vec<u8>) -> (r: Result<(), String>)
    ensures
        r is Ok <==> restored@ == saved@,
        r matches Err(message) ==> message@ == if restored@.len() != saved@.len() {
            "The restored file has "@ + text::decimal(restored@.len())
                + " bytes. The saved file has "@ + text::decimal(saved@.len()) + " bytes."@
        } else {
            "The restored file is not equal to the saved file."@
        },
{
    if restored.len() != saved.len() {
        let mut out = owned("The restored file has ");
        push_decimal(&mut out, restored.len() as u64);
        out.append(" bytes. The saved file has ");
        push_decimal(&mut out, saved.len() as u64);
        out.append(" bytes.");
        Err(out)
    } else if crate::model::same_bytes(restored, saved) {
        Ok(())
    } else {
        Err(owned("The restored file is not equal to the saved file."))
    }
}

/// Checks that the restored file `name` is equal to the saved file.
///
/// # Errors
///
/// * If the content differs.
pub fn check_named_file(name: &str, restored: &Vec<u8>, saved: &Vec<u8>) -> (r: Result<(), String>)
    ensures
        r is Ok <==> restored@ == saved@,
        r matches Err(message) ==> message@ == "The restored file `"@ + name@
            + "` is not equal to the saved file."@,
{
    if crate::model::same_bytes(restored, saved) {
        Ok(())
    } else {
        let mut out = owned("The restored file `");
        out.append(name);
        out.append("` is not equal to the saved file.");
        Err(out)
    }
}

/// Checks that `result` is an error whose text contains `expected`.
///
/// # Errors
///
/// * If `result` is `Ok`.
/// * If the text of the error does not contain `expected`.
pub fn expect_error<T>(result: RusticResult<T>, expected: &str) -> (r: Result<(), String>)
    ensures
        match (result, r) {
            (Ok(_), Ok(_)) => false,
            (Ok(_), Err(message)) => message@
                == "The operation succeeded, but an error that contains `"@ + expected@
                + "` was expected."@,
            (Err(err), Ok(_)) => text::is_substring(err.message_text(), expected@),
            (Err(err), Err(message)) => !text::is_substring(err.message_text(), expected@)
                && message@ == "The error does not contain `"@ + expected@ + "`:\n"@
                + err.message_text(),
        },
{
    match result {
        Ok(_) => {
            let mut out = owned("The operation succeeded, but an error that contains `");
            out.append(expected);
            out.append("` was expected.");
            Err(out)
        },
        Err(err) => {
            let found = err.to_string();
            if contains(found.as_str(), expected) {
                Ok(())
            } else {
                let mut out = owned("The error does not contain `");
                out.append(expected);
                out.append("`:\n");
                out.append(found.as_str());
                Err(out)
            }
        },
    }
}

/// Checks that this process does not run as root.
///
/// Some scenarios need a file operation that fails for a user other than root. Root can do these
/// operations, so such a scenario cannot show the error under root.
///
/// # Errors
///
/// * If this process runs as root.
pub fn require_non_root(is_root: bool) -> (r: Result<(), String>)
    ensures
        r is Ok <==> !is_root,
        r matches Err(message) ==> message@
            == "This scenario needs a user other than root. Root can do the file operation that the scenario makes fail."@,
{
    if is_root {
        Err(
            owned(
                "This scenario needs a user other than root. Root can do the file operation that the scenario makes fail.",
            ),
        )
    } else {
        Ok(())
    }
}

/// The value that [`extended_attributes`] gives to each extended attribute.
pub const EXTENDED_ATTRIBUTE_VALUE: [u8; 1] = [120];

/// The serialized form of the extended attribute `name`. `eA==` is the value `x` in base 64.
pub open spec fn attribute_text(name: Seq<char>) -> Seq<char> {
    "{\"name\":\""@ + name + "\",\"value\":\"eA==\"}"@
}

/// Gives the serialized form of the extended attributes with the names `names`.
pub fn extended_attributes(names: &Vec<String>) -> (r: String)
    ensures
        r@ == "["@ + text::joined(
            text::texts(names@).map_values(|name: Seq<char>| attribute_text(name)),
            ","@,
        ) + "]"@,
{
    let mut parts: Vec<String> = Vec::new();
    let n: usize = names.len();
    for i in 0..n
        invariant
            n == names.len(),
            parts.len() == i,
            forall|j: int| 0 <= j < i ==> (#[trigger] parts@[j])@ == attribute_text(names@[j]@),
    {
        let mut part = owned("{\"name\":\"");
        part.append(names[i].as_str());
        part.append("\",\"value\":\"eA==\"}");
        parts.push(part);
    }
    proof {
        assert(text::texts(parts@) =~= text::texts(names@).map_values(
            |name: Seq<char>| attribute_text(name),
        ));
    }
    let mut out = owned("[");
    out.append(text::join(&parts, ",").as_str());
    out.append("]");
    out
}

/// The text of an optional list of bytes.
pub open spec fn bytes_text(value: Option<Seq<u8>>) -> Seq<char> {
    match value {
        Some(bytes) => "Some("@ + text::list_text(
            bytes.map_values(|byte: u8| text::decimal(byte as nat)),
        ) + ")"@,
        None => "None"@,
    }
}

/// Gives the text of an optional list of bytes.
fn describe_bytes(value: Option<&Vec<u8>>) -> (r: String)
    ensures
        r@ == bytes_text(
            match value {
                Some(bytes) => Some(bytes@),
                None => None,
            },
        ),
{
    match value {
        Some(bytes) => {
            let mut parts: Vec<String> = Vec::new();
            let n: usize = bytes.len();
            for i in 0..n
                invariant
                    n == bytes.len(),
                    parts.len() == i,
                    forall|j: int|
                        0 <= j < i ==> (#[trigger] parts@[j])@ == text::decimal(bytes@[j] as nat),
            {
                parts.push(text::decimal_text(bytes[i] as u64));
            }
            proof {
                assert(text::texts(parts@) =~= bytes@.map_values(
                    |byte: u8| text::decimal(byte as nat),
                ));
            }
            let mut out = owned("Some(");
            out.append(text::list(&parts).as_str());
            out.append(")");
            out
        },
        None => owned("None"),
    }
}

/// The bytes of an optional value.
pub open spec fn optional_bytes(value: Option<&Vec<u8>>) -> Option<Seq<u8>> {
    match value {
        Some(bytes) => Some(bytes@),
        None => None,
    }
}

/// Checks that the extended attribute `name` of the file `path` has the value `value`.
///
/// # Arguments
///
/// * `path` - The file
/// * `name` - The name of the extended attribute
/// * `found` - The value of the extended attribute, or `None` if the file does not have it
/// * `value` - The expected value, or `None` if the file must not have the attribute
///
/// # Errors
///
/// * If the value of the extended attribute is not `value`.
pub fn expect_xattr(path: &str, name: &str, found: Option<&Vec<u8>>, value: Option<&Vec<u8>>) -> (r:
    Result<(), String>)
    ensures
        r is Ok <==> optional_bytes(found) == optional_bytes(value),
        r matches Err(message) ==> message@ == "The extended attribute `"@ + name@ + "` of `"@
            + path@ + "` is "@ + bytes_text(optional_bytes(found)) + ", but "@ + bytes_text(
            optional_bytes(value),
        ) + " was expected."@,
{
    let same = match (found, value) {
        (Some(a), Some(b)) => crate::model::same_bytes(a, b),
        (None, None) => true,
        (_, _) => false,
    };
    if same {
        Ok(())
    } else {
        let mut out = owned("The extended attribute `");
        out.append(name);
        out.append("` of `");
        out.append(path);
        out.append("` is ");
        out.append(describe_bytes(found).as_str());
        out.append(", but ");
        out.append(describe_bytes(value).as_str());
        out.append(" was expected.");
        Err(out)
    }
}

/// Checks that the kernel refuses a set of the extended attribute `name` on the file `path`.
///
/// A scenario of a failed set needs a set that the kernel refuses. A kernel that permits the set
/// would make the scenario pass without showing anything, so the scenario stops instead.
///
/// # Errors
///
/// * If the kernel permits the set.
pub fn require_xattr_refused(path: &str, name: &str, refused: bool) -> (r: Result<(), String>)
    ensures
        r is Ok <==> refused,
        r matches Err(message) ==> message@
            == "This kernel lets this process set the extended attribute `"@ + name@ + "` on `"@
            + path@
            + "`. The scenario cannot show the rule for an attribute that the kernel refuses."@,
{
    if refused {
        Ok(())
    } else {
        let mut out = owned("This kernel lets this process set the extended attribute `");
        out.append(name);
        out.append("` on `");
        out.append(path);
        out.append(
            "`. The scenario cannot show the rule for an attribute that the kernel refuses.",
        );
        Err(out)
    }
}

/// The content of a file of at most `len` bytes: the first `len` bytes of `data`.
pub open spec fn shortened(data: Seq<u8>, len: nat) -> Seq<u8> {
    if len <= data.len() {
        data.take(len as int)
    } else {
        data
    }
}

/// Gives the first `len` bytes of `data`.
fn shorten(data: &Bytes, len: usize) -> (r: Bytes)
    ensures
        buffer::bytes_seq(r) == shortened(buffer::bytes_seq(*data), len as nat),
{
    let all: usize = buffer::as_slice(data).len();
    let end: usize = if len <= all {
        len
    } else {
        all
    };
    assert(buffer::bytes_seq(*data).subrange(0, end as int) =~= shortened(
        buffer::bytes_seq(*data),
        len as nat,
    ));
    buffer::slice(data, 0, end)
}

/// The files `files` with at most `len` bytes each.
pub open spec fn all_shortened(files: Map<Id, Seq<u8>>, len: nat) -> Map<Id, Seq<u8>> {
    files.map_values(|data: Seq<u8>| shortened(data, len))
}

/// Whether `be` can list, read, remove and write the file `id`, so that `content` is at most `len`
/// bytes of what the read gives.
pub open spec fn was_shortened<R: Fn(&BackendCall) -> Option<Fault>>(
    be: FaultInjectionBackend<InMemoryBackend, R>,
    tpe: FileType,
    id: Id,
    len: nat,
    content: Seq<u8>,
) -> bool {
    &&& be.can_pass(fault::list_call(tpe))
    &&& be.can_pass(fault::file_call(BackendOp::Remove, tpe, id))
    &&& be.can_pass(fault::file_call(BackendOp::Write, tpe, id))
    &&& exists|data: Seq<u8>| #[trigger]
        be.reads_full(tpe, id, Ok(data)) && content == shortened(data, len)
}

/// Whether `be` can refuse the call `call` of a change of its files of the type `tpe`.
pub open spec fn refuses_change<R: Fn(&BackendCall) -> Option<Fault>>(
    be: FaultInjectionBackend<InMemoryBackend, R>,
    tpe: FileType,
    call: BackendCall,
) -> bool {
    &&& exists|decided: Fault| be.decides(call, Some(decided))
    &&& call.tpe == tpe
    &&& match call.id {
        None => call.op == BackendOp::List,
        Some(id) => be.inner.files(tpe).contains_key(id) && (call.op == BackendOp::ReadFull
            || call.op == BackendOp::Remove || call.op == BackendOp::Write),
    }
}

/// Replaces each file of the type `tpe` in `backend` with the first `len` bytes of that file.
///
/// A file that has `len` bytes or less does not change.
///
/// # Arguments
///
/// * `backend` - The backend that holds the files
/// * `tpe` - The type of the files to shorten
/// * `len` - The maximum number of bytes that a file keeps
///
/// # Errors
///
/// * If the function cannot list, read, remove or write a file: the rule of the backend decides a
///   fault, or the backend is cold and a file is not warmed up.
pub fn shorten_files<R: Fn(&BackendCall) -> Option<Fault>>(
    backend: &mut FaultInjectionBackend<InMemoryBackend, R>,
    tpe: FileType,
    len: usize,
) -> (r: RusticResult<()>)
    requires
        forall|call: BackendCall| #[trigger] old(backend).takes(call),
        forall|id: Id| #[trigger]
            old(backend).inner.files(tpe).contains_key(id) ==> old(backend).inner.files(
                tpe,
            )[id].len() <= u32::MAX && old(backend).inner.files(tpe)[id].len() <= isize::MAX,
    ensures
        final(backend).rule == old(backend).rule,
        final(backend).inner.cold() == old(backend).inner.cold(),
        forall|t: FileType| #[trigger]
            final(backend).inner.warmed(t) == old(backend).inner.warmed(t),
        forall|t: FileType|
            t != tpe ==> #[trigger] final(backend).inner.files(t) == old(backend).inner.files(t),
        old(backend).is_quiet() && (forall|id: Id| #[trigger]
            old(backend).inner.files(tpe).contains_key(id) ==> !old(backend).inner.is_frozen(
                tpe,
                id,
            )) ==> r is Ok,
        r is Ok ==> old(backend).can_pass(fault::list_call(tpe)),
        r is Ok ==> final(backend).inner.files(tpe).dom() == old(backend).inner.files(tpe).dom(),
        r is Ok ==> (forall|id: Id| #[trigger]
            old(backend).inner.files(tpe).contains_key(id) ==> !old(backend).inner.is_frozen(tpe, id)
                && was_shortened(
                *old(backend),
                tpe,
                id,
                len as nat,
                final(backend).inner.files(tpe)[id],
            )),
        r is Ok && old(backend).is_quiet() ==> final(backend).inner.files(tpe) == all_shortened(
            old(backend).inner.files(tpe),
            len as nat,
        ),
        forall|id: Id| #[trigger]
            final(backend).inner.files(tpe).contains_key(id) ==> old(backend).inner.files(
                tpe,
            ).contains_key(id) && (final(backend).inner.files(tpe)[id] == old(backend).inner.files(
                tpe,
            )[id] || was_shortened(
                *old(backend),
                tpe,
                id,
                len as nat,
                final(backend).inner.files(tpe)[id],
            )),
        forall|id: Id| #[trigger]
            old(backend).inner.files(tpe).contains_key(id) && !final(backend).inner.files(
                tpe,
            ).contains_key(id) ==> r == Err::<(), RusticError>(
                RusticError::InjectedFault { call: fault::file_call(BackendOp::Write, tpe, id) },
            ),
        match r {
            Ok(_) => true,
            Err(RusticError::InjectedFault { call }) => refuses_change(*old(backend), tpe, call),
            Err(RusticError::NotWarmedUp { tpe: t, id }) => t == tpe && old(backend).inner.files(
                tpe,
            ).contains_key(id) && old(backend).inner.is_frozen(tpe, id),
            Err(_) => false,
        },
{
    let ghost start = *backend;
    let ghost files = backend.inner.files(tpe);
    let ids = match backend.list(tpe) {
        Ok(ids) => ids,
        Err(err) => {
            return Err(err);
        },
    };
    proof {
        lemma_listed_ids(start, tpe, ids@);
    }
    let n: usize = ids.len();
    for i in 0..n
        invariant
            n == ids.len(),
            start == *old(backend),
            files == start.inner.files(tpe),
            forall|call: BackendCall| #[trigger] start.takes(call),
            forall|id: Id| #[trigger]
                files.contains_key(id) ==> files[id].len() <= u32::MAX && files[id].len()
                    <= isize::MAX,
            ids@.no_duplicates(),
            forall|id: Id| #[trigger] files.contains_key(id) <==> ids@.contains(id),
            backend.rule == start.rule,
            backend.inner.cold() == start.inner.cold(),
            forall|t: FileType| #[trigger] backend.inner.warmed(t) == start.inner.warmed(t),
            forall|t: FileType|
                t != tpe ==> #[trigger] backend.inner.files(t) == start.inner.files(t),
            backend.inner.files(tpe).dom() == files.dom(),
            forall|id: Id| #[trigger]
                files.contains_key(id) ==> backend.inner.files(tpe)[id].len() <= files[id].len(),
            start.can_pass(fault::list_call(tpe)),
            forall|j: int|
                0 <= j < i ==> !start.inner.is_frozen(tpe, #[trigger] ids@[j]) && was_shortened(
                    start,
                    tpe,
                    ids@[j],
                    len as nat,
                    backend.inner.files(tpe)[ids@[j]],
                ),
            forall|j: int|
                i <= j < n ==> backend.inner.files(tpe)[#[trigger] ids@[j]] == files[ids@[j]],
    {
        let id = ids[i];
        let ghost before = *backend;
        proof {
            assert(ids@.contains(ids@[i as int]));
            assert(files.contains_key(id));
            assert forall|call: BackendCall| #[trigger] before.takes(call) by {
                assert(start.takes(call));
            }
        }
        let data = match backend.read_full(tpe, &id) {
            Ok(data) => data,
            Err(err) => {
                proof {
                    lemma_read_error(before, tpe, id, err);
                    assert(before.inner.warmed(tpe) == start.inner.warmed(tpe));
                    lemma_partly_shortened(start, before, tpe, len as nat, ids@, i as int);
                    if err is InjectedFault {
                        lemma_refused(
                            before,
                            start,
                            fault::file_call(BackendOp::ReadFull, tpe, id),
                        );
                    }
                }
                return Err(err);
            },
        };
        proof {
            lemma_read_data(before, start, tpe, id, buffer::bytes_seq(data));
        }
        let short = shorten(&data, len);
        match backend.remove(tpe, &id, false) {
            Ok(()) => {},
            Err(err) => {
                proof {
                    lemma_partly_shortened(start, before, tpe, len as nat, ids@, i as int);
                    lemma_refused(
                        before,
                        start,
                        fault::file_call(BackendOp::Remove, tpe, id),
                    );
                }
                return Err(err);
            },
        }
        let ghost removed = *backend;
        proof {
            assert forall|call: BackendCall| #[trigger] removed.takes(call) by {
                assert(start.takes(call));
            }
        }
        match backend.write_bytes(tpe, &id, false, BytesList::from_bytes(short)) {
            Ok(()) => {},
            Err(err) => {
                proof {
                    lemma_partly_shortened(start, before, tpe, len as nat, ids@, i as int);
                    lemma_refused(
                        removed,
                        start,
                        fault::file_call(BackendOp::Write, tpe, id),
                    );
                }
                return Err(err);
            },
        }
        proof {
            let after = backend.inner.files(tpe);
            assert(after =~= before.inner.files(tpe).insert(id, buffer::bytes_seq(short)));
            assert(after.dom() =~= files.dom());
            assert forall|t: FileType| #[trigger]
                backend.inner.warmed(t) == start.inner.warmed(t) by {
                assert(removed.inner.warmed(t) == before.inner.warmed(t));
            }
            assert forall|t: FileType| t != tpe implies #[trigger] backend.inner.files(t)
                == start.inner.files(t) by {
                assert(removed.inner.files(t) == before.inner.files(t));
            }
        }
    }
    proof {
        lemma_partly_shortened(start, *backend, tpe, len as nat, ids@, n as int);
        assert forall|id: Id| #[trigger] files.contains_key(id) implies !start.inner.is_frozen(
            tpe,
            id,
        ) && was_shortened(start, tpe, id, len as nat, backend.inner.files(tpe)[id]) by {
            assert(ids@.contains(id));
            let j = choose|j: int| 0 <= j < ids@.len() && ids@[j] == id;
            assert(ids@[j] == id);
        }
        if start.is_quiet() {
            assert forall|id: Id| #[trigger] files.contains_key(id) implies backend.inner.files(
                tpe,
            )[id] == shortened(files[id], len as nat) by {
                lemma_quiet_read(start, tpe, id);
            }
            assert(backend.inner.files(tpe) =~= all_shortened(files, len as nat));
        }
    }
    Ok(())
}

/// A backend that can refuse `call` could refuse it before changes of its files.
proof fn lemma_refused<R: Fn(&BackendCall) -> Option<Fault>>(
    be: FaultInjectionBackend<InMemoryBackend, R>,
    start: FaultInjectionBackend<InMemoryBackend, R>,
    call: BackendCall,
)
    requires
        be.rule == start.rule,
        exists|decided: Fault| be.decides(call, Some(decided)),
    ensures
        exists|decided: Fault| start.decides(call, Some(decided)),
        !start.is_quiet(),
{
    let decided = choose|decided: Fault| be.decides(call, Some(decided));
    assert(start.decides(call, Some(decided)));
}

/// A quiet backend gives each file as it is.
proof fn lemma_quiet_read<R: Fn(&BackendCall) -> Option<Fault>>(
    be: FaultInjectionBackend<InMemoryBackend, R>,
    tpe: FileType,
    id: Id,
)
    requires
        be.is_quiet(),
        be.inner.files(tpe).contains_key(id),
    ensures
        forall|data: Seq<u8>| #[trigger]
            be.reads_full(tpe, id, Ok(data)) ==> data == be.inner.files(tpe)[id],
{
}

/// While the first files are shortened, each file is as it was or was shortened.
proof fn lemma_partly_shortened<R: Fn(&BackendCall) -> Option<Fault>>(
    start: FaultInjectionBackend<InMemoryBackend, R>,
    now: FaultInjectionBackend<InMemoryBackend, R>,
    tpe: FileType,
    len: nat,
    ids: Seq<Id>,
    n: int,
)
    requires
        0 <= n <= ids.len(),
        forall|id: Id| #[trigger] start.inner.files(tpe).contains_key(id) <==> ids.contains(id),
        now.inner.files(tpe).dom() == start.inner.files(tpe).dom(),
        forall|j: int|
            0 <= j < n ==> was_shortened(
                start,
                tpe,
                #[trigger] ids[j],
                len,
                now.inner.files(tpe)[ids[j]],
            ),
        forall|j: int|
            n <= j < ids.len() ==> now.inner.files(tpe)[#[trigger] ids[j]] == start.inner.files(
                tpe,
            )[ids[j]],
    ensures
        forall|id: Id| #[trigger]
            now.inner.files(tpe).contains_key(id) ==> start.inner.files(tpe).contains_key(id) && (
            now.inner.files(tpe)[id] == start.inner.files(tpe)[id] || was_shortened(
                start,
                tpe,
                id,
                len,
                now.inner.files(tpe)[id],
            )),
{
    assert forall|id: Id| #[trigger] now.inner.files(tpe).contains_key(id) implies
        start.inner.files(tpe).contains_key(id) && (now.inner.files(tpe)[id]
        == start.inner.files(tpe)[id] || was_shortened(
        start,
        tpe,
        id,
        len,
        now.inner.files(tpe)[id],
    )) by {
        assert(start.inner.files(tpe).contains_key(id));
        let j = choose|j: int| 0 <= j < ids.len() && ids[j] == id;
        assert(ids[j] == id);
    }
}

/// A listing that reached the backend holds the ID of each file once.
proof fn lemma_listed_ids<R: Fn(&BackendCall) -> Option<Fault>>(
    be: FaultInjectionBackend<InMemoryBackend, R>,
    tpe: FileType,
    ids: Seq<Id>,
)
    requires
        exists|files: Result<Seq<(Id, u32)>, RusticError>| #[trigger]
            be.lists(tpe, files) && backend::ids_of(files) == Ok::<Seq<Id>, RusticError>(ids),
    ensures
        ids.no_duplicates(),
        forall|id: Id| #[trigger] be.inner.files(tpe).contains_key(id) <==> ids.contains(id),
{
    let files = choose|files: Result<Seq<(Id, u32)>, RusticError>| #[trigger]
        be.lists(tpe, files) && backend::ids_of(files) == Ok::<Seq<Id>, RusticError>(ids);
    let list = files->Ok_0;
    assert(be.inner.is_listing(tpe, list));
    assert forall|i: int, j: int|
        0 <= i < ids.len() && 0 <= j < ids.len() && i != j implies ids[i] != ids[j] by {
        if i < j {
            assert(list[i].0.before(list[j].0));
        } else {
            assert(list[j].0.before(list[i].0));
        }
    }
    assert forall|id: Id| #[trigger] be.inner.files(tpe).contains_key(id) <==> ids.contains(id) by {
        if be.inner.files(tpe).contains_key(id) {
            let i = choose|i: int| crate::sorted::key_at(list, id, i);
            assert(crate::sorted::key_at(list, id, i));
            assert(ids[i] == id);
        }
        if ids.contains(id) {
            let i = choose|i: int| 0 <= i < ids.len() && ids[i] == id;
            assert(be.inner.files(tpe).contains_key(list[i].0));
        }
    }
}

proof fn lemma_read_error<R: Fn(&BackendCall) -> Option<Fault>>(
    be: FaultInjectionBackend<InMemoryBackend, R>,
    tpe: FileType,
    id: Id,
    err: RusticError,
)
    requires
        be.inner.files(tpe).contains_key(id),
        be.reads_full(tpe, id, Err(err)),
    ensures
        match err {
            RusticError::InjectedFault { call } => refuses_change(be, tpe, call) && call
                == fault::file_call(BackendOp::ReadFull, tpe, id),
            RusticError::NotWarmedUp { tpe: t, id: x } => t == tpe && x == id && be.inner.is_frozen(
                tpe,
                id,
            ),
            _ => false,
        },
{
}

/// What a read gives after changes of other files is what it can give before them.
proof fn lemma_read_data<R: Fn(&BackendCall) -> Option<Fault>>(
    be: FaultInjectionBackend<InMemoryBackend, R>,
    start: FaultInjectionBackend<InMemoryBackend, R>,
    tpe: FileType,
    id: Id,
    data: Seq<u8>,
)
    requires
        be.rule == start.rule,
        be.inner.cold() == start.inner.cold(),
        be.inner.warmed(tpe) == start.inner.warmed(tpe),
        be.inner.files(tpe).contains_key(id),
        start.inner.files(tpe).contains_key(id),
        be.inner.files(tpe)[id] == start.inner.files(tpe)[id],
        be.reads_full(tpe, id, Ok(data)),
    ensures
        data.len() <= be.inner.files(tpe)[id].len(),
        !start.inner.is_frozen(tpe, id),
        start.reads_full(tpe, id, Ok(data)),
{
    let call = fault::file_call(BackendOp::ReadFull, tpe, id);
    let inner = |got: Result<Seq<u8>, RusticError>| be.inner.reads_full(tpe, id, got);
    let (decided, got) = choose|decided: Option<Fault>, got: Result<Seq<u8>, RusticError>|
        {
            &&& #[trigger] be.decides(call, decided)
            &&& decided == Some(Fault::Error) || inner(got)
            &&& Ok::<Seq<u8>, RusticError>(data) == #[trigger] fault::read_outcome(
                call,
                decided,
                got,
            )
        };
    assert(start.decides(call, decided));
    assert(start.inner.reads_full(tpe, id, got));
    assert(Ok::<Seq<u8>, RusticError>(data) == fault::read_outcome(call, decided, got));
}

/// In a backend without faults that is not cold, each file keeps its first bytes, at most as many as
/// asked: a longer file has exactly this length after it, and a file that is not longer does not
/// change. No file appears or is lost.
pub proof fn law_files_keep_their_first_bytes<R: Fn(&BackendCall) -> Option<Fault>>(
    be: &mut FaultInjectionBackend<InMemoryBackend, R>,
    tpe: FileType,
    len: usize,
    r: RusticResult<()>,
    id: Id,
)
    requires
        call_ensures(shorten_files::<R>, (be, tpe, len), r),
        old(be).rule is None,
        !old(be).inner.cold(),
    ensures
        r is Ok,
        final(be).inner.files(tpe).contains_key(id) == old(be).inner.files(tpe).contains_key(id),
        old(be).inner.files(tpe).contains_key(id) ==> {
            let (was, now) = (old(be).inner.files(tpe)[id], final(be).inner.files(tpe)[id]);
            &&& was.len() <= len ==> now == was
            &&& was.len() > len ==> now.len() == len && now == was.take(len as int)
        },
{
    assert(old(be).is_quiet());
    assert(final(be).inner.files(tpe) == all_shortened(old(be).inner.files(tpe), len as nat));
    assert(final(be).inner.files(tpe).contains_key(id) == final(be).inner.files(tpe).dom().contains(
        id,
    ));
    if old(be).inner.files(tpe).contains_key(id) && old(be).inner.files(tpe)[id].len() == len {
        let was = old(be).inner.files(tpe)[id];
        assert(was.take(len as int) =~= was);
    }
}

/// The files for own packs are as many as asked. Each has 4,000 bytes, the content of its own seed,
/// and its own name.
pub proof fn law_own_pack_files(
    count: u64,
    seed: u64,
    files: Vec<ScenarioFile>,
    i: int,
    j: int,
    data: Vec<u8>,
)
    requires
        call_ensures(files_in_own_packs, (count, seed), files),
        files.len() == count,
        0 <= i < count,
        0 <= j < count,
        seed + i <= u64::MAX,
        call_ensures(content, ((seed + i) as u64, 4_000usize), data),
    ensures
        files@[i].data@ == data@,
        files@[i].data.len() == 4_000,
        i != j ==> files@[i].name@ != files@[j].name@,
{
    assert(is_own_pack_file(files@[i], i as nat, seed as nat));
    assert(is_own_pack_file(files@[j], j as nat, seed as nat));
    assert(files@[i].data@.len() == 4_000);
    if files@[i].name@ == files@[j].name@ {
        reveal_strlit("f");
        let (x, y) = (text::decimal_padded(i as nat, 2), text::decimal_padded(j as nat, 2));
        assert(files@[i].name@.skip(1) =~= x);
        assert(files@[j].name@.skip(1) =~= y);
        text::law_padding_adds_zeros(i as nat, 2);
        text::law_padding_adds_zeros(j as nat, 2);
    }
}

/// The content of a sparse file is the content of its seed, and then only zeros.
pub proof fn law_zeros_follow_the_content(
    seed: u64,
    len: usize,
    zeros: usize,
    r: Vec<u8>,
    data: Vec<u8>,
    i: int,
)
    requires
        call_ensures(content_then_zeros, (seed, len, zeros), r),
        call_ensures(content, (seed, len), data),
    ensures
        r.len() == len + zeros,
        r@.take(len as int) == data@,
        len <= i < r.len() ==> r@[i] == 0,
{
    assert(r@.take(len as int) =~= data@);
}

/// An expected error passes exactly if the operation failed with a message that has the text in it.
pub proof fn law_expected_error_has_the_text<T>(
    result: RusticResult<T>,
    expected: &str,
    r: Result<(), String>,
)
    requires
        call_ensures(expect_error::<T>, (result, expected), r),
    ensures
        result is Ok ==> r is Err,
        result is Err ==> (r is Ok <==> exists|before: Seq<char>, after: Seq<char>|
            result->Err_0.message_text() == #[trigger] ((before + expected@) + after)),
{
    if result is Err {
        text::lemma_substring(result->Err_0.message_text(), expected@);
    }
}

/// The form of extended attributes lists one object for each name, with the name in it, in the order of
/// the names, with commas between them.
pub proof fn law_attributes_follow_the_names(
    names: Vec<String>,
    more: Vec<String>,
    a: String,
    b: String,
)
    requires
        call_ensures(extended_attributes, (&names,), a),
        call_ensures(extended_attributes, (&more,), b),
        more.len() == names.len() + 1,
        text::texts(more@).drop_last() == text::texts(names@),
    ensures
        names.len() > 0 ==> b@ == a@.drop_last() + ","@ + attribute_text(more@.last()@) + "]"@,
        names.len() == 0 ==> a@ == "["@ + "]"@ && b@ == "["@ + attribute_text(more@.last()@) + "]"@,
        text::is_substring(
            attribute_text(more@.last()@),
            "\"name\":\""@ + more@.last()@ + "\""@,
        ),
{
    let form = |name: Seq<char>| attribute_text(name);
    let x = text::texts(names@).map_values(form);
    let y = text::texts(more@).map_values(form);
    let name = more@.last()@;
    assert(text::texts(more@).last() == name);
    assert(y =~= x.push(attribute_text(name)));
    assert(x.len() == names.len());
    text::law_joined_texts_follow_each_other(x, attribute_text(name), ","@);
    reveal_strlit("]");
    if names.len() > 0 {
        assert(a@.drop_last() =~= "["@ + text::joined(x, ","@));
        assert(b@ =~= a@.drop_last() + ","@ + attribute_text(name) + "]"@);
    } else {
        assert(x =~= Seq::empty());
        assert(y =~= seq![attribute_text(name)]);
        assert(a@ =~= "["@ + "]"@);
    }
    reveal_strlit("{\"name\":\"");
    reveal_strlit("{");
    reveal_strlit("\"name\":\"");
    reveal_strlit("\",\"value\":\"eA==\"}");
    reveal_strlit("\"");
    let part = "\"name\":\""@ + name + "\""@;
    let whole = attribute_text(name);
    let rest = "\",\"value\":\"eA==\"}"@.skip(1);
    assert("{\"name\":\""@ =~= "{"@ + "\"name\":\""@);
    assert("\",\"value\":\"eA==\"}"@ =~= "\""@ + rest);
    assert(whole =~= ("{"@ + part) + rest);
    text::lemma_substring(whole, part);
}

/// A file is sparse exactly if its blocks of 512 bytes are fewer bytes than its length.
pub proof fn law_sparse_files_use_fewer_bytes(blocks: u64, len: u64, r: Result<(), String>)
    requires
        call_ensures(check_is_sparse, (blocks, len), r),
    ensures
        r is Ok <==> 512 * blocks < len,
{
}

/// A restored file passes its checks exactly if it has the length of the saved file and each byte of it.
pub proof fn law_restored_file_has_each_byte(
    restored: Vec<u8>,
    saved: Vec<u8>,
    name: &str,
    a: Result<(), String>,
    b: Result<(), String>,
)
    requires
        call_ensures(check_restored_file, (&restored, &saved), a),
        call_ensures(check_named_file, (name, &restored, &saved), b),
    ensures
        a is Ok <==> restored.len() == saved.len() && (forall|i: int|
            0 <= i < saved.len() ==> restored@[i] == #[trigger] saved@[i]),
        b is Ok <==> a is Ok,
        b is Err ==> text::is_substring(b->Err_0@, name@),
{
    if restored.len() == saved.len() && (forall|i: int|
        0 <= i < saved.len() ==> restored@[i] == #[trigger] saved@[i]) {
        assert(restored@ =~= saved@);
    }
    if b is Err {
        let message = b->Err_0@;
        assert(message =~= ("The restored file `"@ + name@) + "` is not equal to the saved file."@);
        text::lemma_substring(message, name@);
    }
}

/// An extended attribute passes its check exactly if it is missing and must be missing, or has each
/// byte of its expected value.
pub proof fn law_attribute_has_its_value(
    path: &str,
    name: &str,
    found: Option<&Vec<u8>>,
    value: Option<&Vec<u8>>,
    r: Result<(), String>,
)
    requires
        call_ensures(expect_xattr, (path, name, found, value), r),
    ensures
        found is None && value is None ==> r is Ok,
        found is Some != value is Some ==> r is Err,
        found is Some && value is Some ==> (r is Ok <==> found->0@ == value->0@),
{
}

/// A scenario for another user than root stops for root. A scenario for a refused attribute stops if
/// the kernel permits it.
pub proof fn law_scenarios_need_a_refusal(
    is_root: bool,
    user: Result<(), String>,
    path: &str,
    name: &str,
    refused: bool,
    attribute: Result<(), String>,
)
    requires
        call_ensures(require_non_root, (is_root,), user),
        call_ensures(require_xattr_refused, (path, name, refused), attribute),
    ensures
        user is Err <==> is_root,
        attribute is Err <==> !refused,
{
}

} // verus!
