//! Reading a downloaded update archive into the list of entries to unpack,
//! each under a path that cannot leave the directory it is unpacked into.

use std::io::Cursor;
use vstd::prelude::*;
use zip::result::ZipError;
use zip::ZipArchive;

verus! {

#[verifier::external_type_specification]
#[verifier::external_body]
#[verifier::reject_recursive_types(T)]
pub struct ExCursor<T>(Cursor<T>);

#[verifier::external_type_specification]
#[verifier::external_body]
#[verifier::reject_recursive_types(R)]
pub struct ExZipArchive<R>(ZipArchive<R>);

#[verifier::external_type_specification]
#[verifier::external_body]
pub struct ExZipError(ZipError);

/// An archive opened over bytes held in memory.
pub type Archive = ZipArchive<Cursor<Vec<u8>>>;

/// What an entry amounts to: its path as a list of names, whether it is a
/// directory, and its contents.
pub type EntryModel = (Seq<Seq<char>>, bool, Seq<u8>);

/// The entries that an opened archive holds, in the order of its directory.
pub uninterp spec fn archive_entries(a: Archive) -> Seq<EntryModel>;

/// The entries that the bytes of an archive hold, in the order of its
/// directory.
pub uninterp spec fn zip_entries(bytes: Seq<u8>) -> Seq<EntryModel>;

/// Whether `zip::ZipArchive::new` opens the bytes as an archive.
pub uninterp spec fn zip_opens(bytes: Seq<u8>) -> bool;

/// For each entry of the archive in the bytes, whether it can be read.
pub uninterp spec fn zip_entry_reads(bytes: Seq<u8>) -> Seq<bool>;

/// For each entry of an opened archive, whether it can be read.
pub uninterp spec fn archive_entry_reads(a: Archive) -> Seq<bool>;

/// The bytes open as an archive and every entry of it can be read.
pub open spec fn zip_readable(bytes: Seq<u8>) -> bool {
    &&& zip_opens(bytes)
    &&& forall|i: int| 0 <= i < zip_entries(bytes).len() ==> #[trigger] zip_entry_reads(bytes)[i]
}

/// The signature that opens the end record of an archive's directory:
/// `PK\x05\x06`.
pub open spec fn end_signature_at(bytes: Seq<u8>, k: int) -> bool {
    &&& 0 <= k
    &&& k + 4 <= bytes.len()
    &&& bytes[k] == 0x50u8
    &&& bytes[k + 1] == 0x4bu8
    &&& bytes[k + 2] == 0x05u8
    &&& bytes[k + 3] == 0x06u8
}

pub open spec fn has_end_signature(bytes: Seq<u8>) -> bool {
    exists|k: int| end_signature_at(bytes, k)
}

/// One entry of an archive, ready to be written under a directory.
#[derive(Clone, Debug, PartialEq, Eq)]
pub struct Entry {
    /// The path below the directory, one name per level.
    pub path: Vec<String>,
    pub is_dir: bool,
    pub contents: Vec<u8>,
}

impl View for Entry {
    type V = EntryModel;

    open spec fn view(&self) -> EntryModel {
        (self.path@.map_values(|s: String| s@), self.is_dir, self.contents@)
    }
}

/// Ways in which reading an archive can fail.
#[derive(PartialEq, Eq, Structural, Clone, Copy, Debug)]
pub enum ExtractError {
    /// The bytes are not an archive, or an entry of it cannot be read.
    Malformed,
    /// An entry's path would reach outside the directory it is unpacked into.
    UnsafePath,
}

/// What a list of entries amounts to.
pub open spec fn entries_model(v: Seq<Entry>) -> Seq<EntryModel> {
    v.map_values(|e: Entry| e@)
}

/// A name that stands for itself inside a directory: not empty, not `.` or
/// `..`, and without a separator or a NUL.
pub open spec fn is_plain_name(c: Seq<char>) -> bool {
    &&& c.len() > 0
    &&& c != seq!['.']
    &&& c != seq!['.', '.']
    &&& forall|k: int| 0 <= k < c.len() ==> #[trigger] c[k] != '/' && c[k] != '\\' && c[k] != '\0'
}

/// An entry that can be written below a directory without leaving it: every
/// name of its path is plain, and a file has at least one name.
pub open spec fn stays_inside(e: EntryModel) -> bool {
    &&& forall|j: int| 0 <= j < e.0.len() ==> is_plain_name(#[trigger] e.0[j])
    &&& (e.1 || e.0.len() > 0)
}

/// `plan` is what unpacking `bytes` writes: every entry of the archive, in
/// order, each of them staying inside the directory.
pub open spec fn unpacks_to(bytes: Seq<u8>, plan: Seq<EntryModel>) -> bool {
    &&& plan == zip_entries(bytes)
    &&& forall|i: int| 0 <= i < plan.len() ==> stays_inside(#[trigger] plan[i])
}

/// Relies on `zip::ZipArchive::new`, which reads the archive's directory: the
/// archive it opens holds the entries that the bytes hold, and it fails when
/// no end record of a directory can be found, which begins with its
/// signature.
#[verifier::external_body]
fn open_archive(bytes: Vec<u8>) -> (r: Result<Archive, ZipError>)
    ensures
        r is Ok <==> zip_opens(bytes@),
        !has_end_signature(bytes@) ==> r is Err,
        r is Ok ==> archive_entries(r->Ok_0) == zip_entries(bytes@),
        r is Ok ==> archive_entry_reads(r->Ok_0) == zip_entry_reads(bytes@),
{
    ZipArchive::new(Cursor::new(bytes))
}

/// Relies on `zip::ZipArchive::len`: the number of entries in the directory.
#[verifier::external_body]
fn entry_count(a: &Archive) -> (r: usize)
    ensures
        r == archive_entries(*a).len(),
{
    a.len()
}

/// Relies on `zip::ZipArchive::by_index` and, on the entry it gives,
/// `mangled_name` (the path with its root, `.` and `..` parts dropped),
/// `is_dir`, and `std::io::Read::read_to_end` for the contents.
#[verifier::external_body]
fn read_entry(a: &mut Archive, i: usize) -> (r: Result<Entry, ZipError>)
    requires
        i < archive_entries(*old(a)).len(),
    ensures
        archive_entries(*final(a)) == archive_entries(*old(a)),
        archive_entry_reads(*final(a)) == archive_entry_reads(*old(a)),
        r is Ok <==> archive_entry_reads(*old(a))[i as int],
        r is Ok ==> r->Ok_0@ == archive_entries(*old(a))[i as int],
{
    let mut file = a.by_index(i)?;
    let name = file.mangled_name()?;
    let path = name.components().map(|c| c.as_os_str().to_string_lossy().into_owned()).collect();
    let is_dir = file.is_dir();
    let mut contents = Vec::new();
    std::io::Read::read_to_end(&mut file, &mut contents)?;
    Ok(Entry { path, is_dir, contents })
}

/// Whether `c` is a plain name.
pub fn name_is_plain(c: &String) -> (r: bool)
    ensures
        r == is_plain_name(c@),
{
    let s = c.as_str();
    let n = s.unicode_len();
    if n == 0 {
        return false;
    }
    if n <= 2 {
        let mut dots = true;
        let mut k: usize = 0;
        while k < n
            invariant
                n == s@.len() <= 2,
                k <= n,
                dots == forall|m: int| 0 <= m < k ==> s@[m] == '.',
            decreases n - k,
        {
            dots = dots && s.get_char(k) == '.';
            k = k + 1;
        }
        if dots {
            proof {
                if n == 1 {
                    assert(s@ =~= seq!['.']);
                } else {
                    assert(s@ =~= seq!['.', '.']);
                }
            }
            return false;
        }
    }
    let mut i: usize = 0;
    while i < n
        invariant
            n == s@.len(),
            s@ == c@,
            i <= n,
            forall|k: int| 0 <= k < i ==> #[trigger] s@[k] != '/' && s@[k] != '\\' && s@[k] != '\0',
        decreases n - i,
    {
        let ch = s.get_char(i);
        if ch == '/' || ch == '\\' || ch == '\0' {
            return false;
        }
        i = i + 1;
    }
    proof {
        if c@ == seq!['.'] {
            assert(c@[0] == '.');
        }
        if c@ == seq!['.', '.'] {
            assert(c@[0] == '.' && c@[1] == '.');
        }
    }
    true
}

/// Whether the entry can be written below a directory without leaving it.
pub fn entry_stays_inside(e: &Entry) -> (r: bool)
    ensures
        r == stays_inside(e@),
{
    let mut j: usize = 0;
    while j < e.path.len()
        invariant
            j <= e.path@.len(),
            forall|m: int| 0 <= m < j ==> is_plain_name(#[trigger] e@.0[m]),
        decreases e.path@.len() - j,
    {
        if !name_is_plain(&e.path[j]) {
            assert(!is_plain_name(e@.0[j as int]));
            return false;
        }
        j = j + 1;
    }
    e.is_dir || e.path.len() > 0
}

/// Reads every entry of the archive in `bytes`, in order, and refuses the
/// archive if any entry's path would leave the directory it is unpacked into.
/// A readable archive whose entries all stay inside is always unpacked.
pub fn unpack_entries(bytes: Vec<u8>) -> (r: Result<Vec<Entry>, ExtractError>)
    ensures
        zip_readable(bytes@) && (forall|i: int|
            0 <= i < zip_entries(bytes@).len() ==> stays_inside(#[trigger] zip_entries(bytes@)[i]))
            ==> r is Ok,
        r == Err::<Vec<Entry>, ExtractError>(ExtractError::Malformed) ==> !zip_readable(bytes@),
        !has_end_signature(bytes@) ==> r == Err::<Vec<Entry>, ExtractError>(
            ExtractError::Malformed,
        ),
        r is Ok ==> zip_readable(bytes@) && unpacks_to(bytes@, entries_model(r->Ok_0@)),
        r == Err::<Vec<Entry>, ExtractError>(ExtractError::UnsafePath) ==> exists|i: int|
            0 <= i < zip_entries(bytes@).len() && !stays_inside(#[trigger] zip_entries(bytes@)[i]),
{
    let ghost all = zip_entries(bytes@);
    let mut archive = match open_archive(bytes) {
        Ok(a) => a,
        Err(_) => return Err(ExtractError::Malformed),
    };
    let n = entry_count(&archive);
    let mut out: Vec<Entry> = Vec::new();
    let mut i: usize = 0;
    while i < n
        invariant
            n == all.len(),
            all == zip_entries(bytes@),
            zip_opens(bytes@),
            has_end_signature(bytes@),
            archive_entries(archive) == all,
            archive_entry_reads(archive) == zip_entry_reads(bytes@),
            forall|k: int| 0 <= k < i ==> #[trigger] zip_entry_reads(bytes@)[k],
            out@.len() == i,
            i <= n,
            entries_model(out@) =~= all.subrange(0, i as int),
            forall|k: int| 0 <= k < i ==> stays_inside(#[trigger] all[k]),
        decreases n - i,
    {
        let e = match read_entry(&mut archive, i) {
            Ok(e) => e,
            Err(_) => return Err(ExtractError::Malformed),
        };
        if !entry_stays_inside(&e) {
            assert(!stays_inside(all[i as int]));
            return Err(ExtractError::UnsafePath);
        }
        let ghost before = out@;
        out.push(e);
        proof {
            assert forall|k: int| 0 <= k <= i implies #[trigger] entries_model(out@)[k] == all.subrange(
                0,
                i + 1,
            )[k] by {
                if k < i {
                    assert(out@[k] == before[k]);
                    assert(entries_model(before)[k] == all.subrange(0, i as int)[k]);
                }
            }
        }
        i = i + 1;
        assert(entries_model(out@) =~= all.subrange(0, i as int));
    }
    assert(all.subrange(0, n as int) =~= all);
    Ok(out)
}

/// Unpacking the same archive twice yields the same entries: what is
/// unpacked depends on the archive's bytes alone.
pub proof fn lemma_unpack_deterministic(bytes: Seq<u8>, p1: Seq<EntryModel>, p2: Seq<EntryModel>)
    requires
        unpacks_to(bytes, p1),
        unpacks_to(bytes, p2),
    ensures
        p1 == p2,
{
}

/// An archive that unpacked once meets the condition under which unpacking
/// is owed to succeed, so unpacking it again succeeds (with the same entries,
/// by `lemma_unpack_deterministic`).
pub proof fn lemma_unpack_again(bytes: Seq<u8>, plan: Seq<EntryModel>)
    requires
        zip_readable(bytes),
        unpacks_to(bytes, plan),
    ensures
        forall|i: int|
            0 <= i < zip_entries(bytes).len() ==> stays_inside(#[trigger] zip_entries(bytes)[i]),
{
}

} // verus!
