//! Unpacking a plugin archive: the zip entries are read and their names
//! normalized by rawzip, deflated data is inflated by flate2, and the library
//! decides, entry by entry, which directory or file each one becomes under
//! the output directory, or why unpacking stops.
use vstd::prelude::*;

use crate::paths::{has_parent_component_on, is_absolute_on, join_on, join_path_on};
use crate::text::{dec_digits, push_str, string_of};
use crate::install::archive_entry_path_allowed;

verus! {

/// An entry of an archive's central directory, as read: its raw name, its
/// compression method and its stored data (or why the data could not be
/// located).
#[derive(Debug)]
pub struct ZipEntry {
    pub raw_name: Vec<u8>,
    pub method: u16,
    pub data: Result<Vec<u8>, String>,
}

/// Why reading an archive stopped: the archive itself could not be opened, or
/// an entry of its directory could not be read.
#[derive(Debug)]
pub enum ZipFault {
    Archive(String),
    Entry(String),
}

/// What reading an archive gives: its entries in order, up to the first that
/// could not be read, and why reading stopped there where it did.
#[derive(Debug)]
pub struct ZipListing {
    pub entries: Vec<ZipEntry>,
    pub fault: Option<ZipFault>,
}

/// An entry as plain values.
pub open spec fn entry_view(e: ZipEntry) -> (Seq<u8>, u16, Result<Seq<u8>, Seq<char>>) {
    (
        e.raw_name@,
        e.method,
        match e.data {
            Ok(d) => Ok(d@),
            Err(m) => Err(m@),
        },
    )
}

/// A fault as plain values: whether it is the archive's, and its text.
pub open spec fn fault_view(f: Option<ZipFault>) -> Option<(bool, Seq<char>)> {
    match f {
        None => None,
        Some(ZipFault::Archive(m)) => Some((true, m@)),
        Some(ZipFault::Entry(m)) => Some((false, m@)),
    }
}

/// A listing as plain values.
pub open spec fn listing_view(l: ZipListing) -> (
    Seq<(Seq<u8>, u16, Result<Seq<u8>, Seq<char>>)>,
    Option<(bool, Seq<char>)>,
) {
    (l.entries@.map_values(|e: ZipEntry| entry_view(e)), fault_view(l.fault))
}

/// What rawzip reads from the bytes of an archive.
pub uninterp spec fn zip_entries_of(archive: Seq<u8>) -> (
    Seq<(Seq<u8>, u16, Result<Seq<u8>, Seq<char>>)>,
    Option<(bool, Seq<char>)>,
);

/// Reads an archive with rawzip: `ZipArchive::from_slice`, then its
/// directory's entries in order, each with its raw path, compression method,
/// and the data `get_entry` locates; errors are given by
/// their debug text. The contract claims only that the listing is a function
/// of the archive's bytes.
#[verifier::external_body]
fn read_zip_entries(archive: &[u8]) -> (r: ZipListing)
    ensures
        listing_view(r) == zip_entries_of(archive@),
{
    let zip = match rawzip::ZipArchive::from_slice(archive) {
        Ok(zip) => zip,
        Err(e) => return ZipListing { entries: vec![], fault: Some(ZipFault::Archive(format!("{e:?}"))) },
    };
    let mut entries = vec![];
    for item in zip.entries() {
        let h = match item {
            Ok(h) => h,
            Err(e) => return ZipListing { entries, fault: Some(ZipFault::Entry(format!("{e:?}"))) },
        };
        let data = zip.get_entry(h.wayfinder()).map(|s| s.data().to_vec()).map_err(|e| format!("{e:?}"));
        entries.push(ZipEntry { raw_name: h.file_path().as_ref().to_vec(), method: h.compression_method().as_u16(), data });
    }
    ZipListing { entries, fault: None }
}

/// What rawzip's path normalization makes of a raw entry name.
pub uninterp spec fn zip_normalized_of(raw: Seq<u8>) -> Result<Seq<char>, Seq<char>>;

/// Normalizes a raw entry name with rawzip
/// (`ZipFilePath::from_bytes(..).try_normalize()`); an error is given by its
/// debug text. The contract claims only that the result is a function of the
/// raw name.
#[verifier::external_body]
fn zip_normalize(raw: &[u8]) -> (r: Result<String, String>)
    ensures
        match r {
            Ok(s) => zip_normalized_of(raw@) == Ok::<Seq<char>, Seq<char>>(s@),
            Err(e) => zip_normalized_of(raw@) == Err::<Seq<char>, Seq<char>>(e@),
        },
{
    match rawzip::path::ZipFilePath::from_bytes(raw).try_normalize() {
        Ok(p) => Ok(p.as_ref().to_string()),
        Err(e) => Err(format!("{e:?}")),
    }
}

/// What flate2 makes of raw deflate data.
pub uninterp spec fn inflate_of(data: Seq<u8>) -> Result<Seq<u8>, Seq<char>>;

/// Inflates raw deflate data with `flate2::read::DeflateDecoder`, reading it
/// to its end; an error is given by its text. The contract claims only that
/// the result is a function of the data.
#[verifier::external_body]
fn inflate_raw(data: &[u8]) -> (r: Result<Vec<u8>, String>)
    ensures
        match r {
            Ok(b) => inflate_of(data@) == Ok::<Seq<u8>, Seq<char>>(b@),
            Err(e) => inflate_of(data@) == Err::<Seq<u8>, Seq<char>>(e@),
        },
{
    let mut out = Vec::new();
    match std::io::Read::read_to_end(&mut flate2::read::DeflateDecoder::new(data), &mut out) {
        Ok(_) => Ok(out),
        Err(e) => Err(e.to_string()),
    }
}

/// The name rawzip gives a compression method id (`CompressionMethod::name`).
pub open spec fn method_name(id: u16) -> Option<Seq<char>> {
    if id == 0 {
        Some("STORE"@)
    } else if id == 1 {
        Some("SHRUNK"@)
    } else if id == 2 {
        Some("REDUCE1"@)
    } else if id == 3 {
        Some("REDUCE2"@)
    } else if id == 4 {
        Some("REDUCE3"@)
    } else if id == 5 {
        Some("REDUCE4"@)
    } else if id == 6 {
        Some("IMPLODED"@)
    } else if id == 7 {
        Some("TOKENIZING"@)
    } else if id == 8 {
        Some("DEFLATE"@)
    } else if id == 9 {
        Some("DEFLATE64"@)
    } else if id == 10 {
        Some("DCL_IMPLODE"@)
    } else if id == 12 {
        Some("BZIP2"@)
    } else if id == 14 {
        Some("LZMA"@)
    } else if id == 16 {
        Some("CMPSC"@)
    } else if id == 18 {
        Some("TERSE"@)
    } else if id == 19 {
        Some("LZ77"@)
    } else if id == 20 {
        Some("ZSTD_DEPRECATED"@)
    } else if id == 93 {
        Some("ZSTD"@)
    } else if id == 94 {
        Some("MP3"@)
    } else if id == 95 {
        Some("XZ"@)
    } else if id == 96 {
        Some("JPEG"@)
    } else if id == 97 {
        Some("WAVPACK"@)
    } else if id == 98 {
        Some("PPMD"@)
    } else if id == 99 {
        Some("AES"@)
    } else {
        None
    }
}

/// The debug text of a compression method: `CompressionMethod::<name>`, or
/// `CompressionMethod(<id>)` for an id without a name.
pub open spec fn method_debug_text(id: u16) -> Seq<char> {
    match method_name(id) {
        Some(n) => "CompressionMethod::"@ + n,
        None => "CompressionMethod("@ + dec_digits(id as nat) + ")"@,
    }
}

/// Formats a compression method id with rawzip's `Debug` for
/// `CompressionMethod`, which writes `CompressionMethod::<name>` for the ids
/// `CompressionMethod::name` knows and `CompressionMethod(<id>)` otherwise.
#[verifier::external_body]
fn method_debug(id: u16) -> (r: String)
    ensures
        r@ == method_debug_text(id),
{
    format!("{:?}", rawzip::CompressionMethod::new(id))
}

/// What an entry becomes: a directory, or a file with these bytes, at a
/// path under the output directory.
#[derive(Debug)]
pub enum ExtractStep {
    CreateDir { path: String },
    WriteFile { path: String, bytes: Vec<u8> },
}

/// A step as plain values: whether it makes a directory, its path, and the
/// bytes of a file.
pub open spec fn step_view(s: ExtractStep) -> (bool, Seq<char>, Seq<u8>) {
    match s {
        ExtractStep::CreateDir { path } => (true, path@, Seq::empty()),
        ExtractStep::WriteFile { path, bytes } => (false, path@, bytes@),
    }
}

/// What the library decides for an entry once its name is normalized
/// (`normalized`): refuse it, make a directory, write its stored data, or
/// inflate its data first; where the method is neither stored nor deflate,
/// it is unsupported.
#[derive(Debug)]
pub enum EntryPlan {
    Refuse(String),
    CreateDir { path: String },
    WriteStored { path: String },
    Inflate { path: String },
    Unsupported,
}

/// The plan for an entry, as plain values: `Err` for a refusal with its text,
/// else the plan's kind (0 directory, 1 stored, 2 inflate, 3 unsupported) and
/// its path.
pub open spec fn entry_plan_spec(
    normalized: Result<Seq<char>, Seq<char>>,
    is_dir: bool,
    method: u16,
    data: Result<Seq<u8>, Seq<char>>,
    out_dir: Seq<char>,
    windows: bool,
) -> Result<(int, Seq<char>), Seq<char>> {
    match normalized {
        Err(e) => Err("failed to normalize zip path: "@ + e),
        Ok(name) => if is_absolute_on(windows, name) || has_parent_component_on(windows, name) {
            Err("unsupported or malicious path in zip: "@ + name)
        } else if is_dir {
            Ok((0, join_on(windows, out_dir, name)))
        } else {
            match data {
                Err(e) => Err("failed to get entry data: "@ + e),
                Ok(_) => if method == 0 {
                    Ok((1, join_on(windows, out_dir, name)))
                } else if method == 8 {
                    Ok((2, join_on(windows, out_dir, name)))
                } else {
                    Ok((3, join_on(windows, out_dir, name)))
                },
            }
        },
    }
}

/// A plan as plain values (see `entry_plan_spec`).
pub open spec fn plan_view(p: EntryPlan) -> Result<(int, Seq<char>), Seq<char>> {
    match p {
        EntryPlan::Refuse(m) => Err(m@),
        EntryPlan::CreateDir { path } => Ok((0, path@)),
        EntryPlan::WriteStored { path } => Ok((1, path@)),
        EntryPlan::Inflate { path } => Ok((2, path@)),
        EntryPlan::Unsupported => Ok((3, Seq::empty())),
    }
}

/// Whether a plan view agrees with the spec, the unsupported plan carrying no
/// path.
pub open spec fn plan_matches(p: Result<(int, Seq<char>), Seq<char>>, s: Result<(int, Seq<char>), Seq<char>>) -> bool {
    match s {
        Ok((kind, _)) => if kind == 3 {
            p == Ok::<(int, Seq<char>), Seq<char>>((3, Seq::empty()))
        } else {
            p == s
        },
        Err(_) => p == s,
    }
}

/// Decides what an entry becomes, in the order the checks are made: a name
/// that does not normalize, then an absolute path or one with a `..`
/// component, is refused; a directory is made; a file whose data could not be
/// located is refused; stored data is written, deflate data inflated, any
/// other method is unsupported. Paths are joined to `out_dir` by the path
/// rules of Windows where `windows` holds, else of Unix.
pub fn entry_plan(
    normalized: Result<String, String>,
    is_dir: bool,
    method: u16,
    data: &Result<Vec<u8>, String>,
    out_dir: &str,
    windows: bool,
) -> (p: EntryPlan)
    ensures
        plan_matches(
            plan_view(p),
            entry_plan_spec(
                match normalized {
                    Ok(s) => Ok(s@),
                    Err(e) => Err(e@),
                },
                is_dir,
                method,
                match data {
                    Ok(d) => Ok(d@),
                    Err(e) => Err(e@),
                },
                out_dir@,
                windows,
            ),
        ),
{
    let name = match normalized {
        Err(e) => {
            let mut v: Vec<char> = Vec::new();
            push_str(&mut v, "failed to normalize zip path: ");
            push_str(&mut v, e.as_str());
            return EntryPlan::Refuse(string_of(&v));
        },
        Ok(s) => s,
    };
    if !archive_entry_path_allowed(name.as_str(), windows) {
        let mut v: Vec<char> = Vec::new();
        push_str(&mut v, "unsupported or malicious path in zip: ");
        push_str(&mut v, name.as_str());
        return EntryPlan::Refuse(string_of(&v));
    }
    let path = join_path_on(windows, out_dir, name.as_str());
    if is_dir {
        return EntryPlan::CreateDir { path };
    }
    match data {
        Err(e) => {
            let mut v: Vec<char> = Vec::new();
            push_str(&mut v, "failed to get entry data: ");
            push_str(&mut v, e.as_str());
            EntryPlan::Refuse(string_of(&v))
        },
        Ok(_) => {
            if method == 0 {
                EntryPlan::WriteStored { path }
            } else if method == 8 {
                EntryPlan::Inflate { path }
            } else {
                EntryPlan::Unsupported
            }
        },
    }
}

/// Whether a raw entry name names a directory: it ends in `/`, as rawzip's
/// `ZipFilePath::is_dir` decides.
pub open spec fn raw_name_is_dir(raw: Seq<u8>) -> bool {
    raw.len() > 0 && raw.last() == 47u8
}

fn raw_name_is_dir_exec(raw: &Vec<u8>) -> (r: bool)
    ensures
        r == raw_name_is_dir(raw@),
{
    raw.len() > 0 && raw[raw.len() - 1] == 47u8
}

/// What an entry's outcome is as plain values: the step it becomes, or the
/// text that stops unpacking at it.
pub open spec fn entry_outcome_spec(
    e: (Seq<u8>, u16, Result<Seq<u8>, Seq<char>>),
    out_dir: Seq<char>,
    windows: bool,
) -> Result<(bool, Seq<char>, Seq<u8>), Seq<char>> {
    match entry_plan_spec(zip_normalized_of(e.0), raw_name_is_dir(e.0), e.1, e.2, out_dir, windows) {
        Err(m) => Err(m),
        Ok((kind, path)) => if kind == 0 {
            Ok((true, path, Seq::empty()))
        } else if kind == 1 {
            Ok((false, path, e.2->Ok_0))
        } else if kind == 2 {
            match inflate_of(e.2->Ok_0) {
                Ok(b) => Ok((false, path, b)),
                Err(x) => Err(deflate_failure_text(zip_normalized_of(e.0)->Ok_0, path, x)),
            }
        } else {
            Err("unsupported compression method: "@ + method_debug_text(e.1))
        },
    }
}

/// The report of deflate data that does not inflate.
pub open spec fn deflate_failure_text(name: Seq<char>, path: Seq<char>, error: Seq<char>) -> Seq<char> {
    "extract (deflate) "@ + name + " to "@ + path + ": "@ + error
}

/// The file step for inflated data (`inflated`, what inflating the entry
/// `name` gave), or the report where it did not inflate.
pub fn inflated_step(inflated: Result<Vec<u8>, String>, name: &str, path: String) -> (r: Result<
    ExtractStep,
    String,
>)
    ensures
        match inflated {
            Ok(b) => r matches Ok(s) && step_view(s) == (false, path@, b@),
            Err(x) => r matches Err(m) && m@ == deflate_failure_text(name@, path@, x@),
        },
{
    match inflated {
        Ok(bytes) => Ok(ExtractStep::WriteFile { path, bytes }),
        Err(x) => {
            let mut v: Vec<char> = Vec::new();
            push_str(&mut v, "extract (deflate) ");
            push_str(&mut v, name);
            push_str(&mut v, " to ");
            push_str(&mut v, path.as_str());
            push_str(&mut v, ": ");
            push_str(&mut v, x.as_str());
            let m = string_of(&v);
            assert(m@ =~= deflate_failure_text(name@, path@, x@));
            Err(m)
        },
    }
}

/// The entry's outcome: the step it becomes, or the text that stops
/// unpacking at it.
fn entry_outcome(entry: ZipEntry, out_dir: &str, windows: bool) -> (r: Result<ExtractStep, String>)
    ensures
        match r {
            Ok(s) => entry_outcome_spec(entry_view(entry), out_dir@, windows) == Ok::<
                (bool, Seq<char>, Seq<u8>),
                Seq<char>,
            >(step_view(s)),
            Err(m) => entry_outcome_spec(entry_view(entry), out_dir@, windows) == Err::<
                (bool, Seq<char>, Seq<u8>),
                Seq<char>,
            >(m@),
        },
{
    let normalized = zip_normalize(entry.raw_name.as_slice());
    let name_copy: Option<String> = match &normalized {
        Ok(s) => Some(s.clone()),
        Err(_) => None,
    };
    let is_dir = raw_name_is_dir_exec(&entry.raw_name);
    let plan = entry_plan(normalized, is_dir, entry.method, &entry.data, out_dir, windows);
    match plan {
        EntryPlan::Refuse(m) => Err(m),
        EntryPlan::CreateDir { path } => Ok(ExtractStep::CreateDir { path }),
        EntryPlan::WriteStored { path } => match entry.data {
            Ok(bytes) => Ok(ExtractStep::WriteFile { path, bytes }),
            Err(m) => Err(m),
        },
        EntryPlan::Inflate { path } => {
            let inflated = match &entry.data {
                Ok(bytes) => inflate_raw(bytes.as_slice()),
                Err(m) => Err(m.clone()),
            };
            let name = match name_copy {
                Some(n) => n,
                None => String::new(),
            };
            inflated_step(inflated, name.as_str(), path)
        },
        EntryPlan::Unsupported => {
            let mut v: Vec<char> = Vec::new();
            push_str(&mut v, "unsupported compression method: ");
            push_str(&mut v, method_debug(entry.method).as_str());
            Err(string_of(&v))
        },
    }
}

/// The text reading an archive stops with.
pub open spec fn fault_text(f: Option<(bool, Seq<char>)>) -> Result<(), Seq<char>> {
    match f {
        None => Ok(()),
        Some((true, e)) => Err("invalid zip archive: "@ + e),
        Some((false, e)) => Err("zip entry error: "@ + e),
    }
}

/// What unpacking an archive does: its steps, in order, and then its
/// result.
#[derive(Debug)]
pub struct ZipExtraction {
    pub steps: Vec<ExtractStep>,
    pub result: Result<(), String>,
}

/// Unpacks the archive `archive` into `out_dir`: each entry read, in order,
/// becomes a step until one is refused or fails, whose report is the
/// result; where every entry read becomes a step, the result is that of
/// reading the archive (a broken archive or entry, else success).
pub fn extract_zip(archive: &[u8], out_dir: &str, windows: bool) -> (r: ZipExtraction)
    ensures
        ({
            let (es, fault) = zip_entries_of(archive@);
            &&& r.steps@.len() <= es.len()
            &&& forall|j: int|
                0 <= j < r.steps@.len() ==> entry_outcome_spec(#[trigger] es[j], out_dir@, windows)
                    == Ok::<(bool, Seq<char>, Seq<u8>), Seq<char>>(step_view(r.steps@[j]))
            &&& r.steps@.len() < es.len() ==> (r.result matches Err(m) && entry_outcome_spec(
                es[r.steps@.len() as int],
                out_dir@,
                windows,
            ) == Err::<(bool, Seq<char>, Seq<u8>), Seq<char>>(m@))
            &&& r.steps@.len() == es.len() ==> match r.result {
                Ok(()) => fault_text(fault) == Ok::<(), Seq<char>>(()),
                Err(m) => fault_text(fault) == Err::<(), Seq<char>>(m@),
            }
        }),
{
    let listing = read_zip_entries(archive);
    let ghost es = listing_view(listing).0;
    let mut entries = listing.entries;
    let fault_part = listing.fault;
    let mut steps: Vec<ExtractStep> = Vec::new();
    let n = entries.len();
    let mut i: usize = 0;
    while i < n
        invariant
            i <= n,
            n == es.len(),
            es == zip_entries_of(archive@).0,
            fault_view(fault_part) == zip_entries_of(archive@).1,
            entries@.len() == n - i,
            forall|k: int| 0 <= k < entries@.len() ==> entry_view(#[trigger] entries@[k]) == es[i + k],
            steps@.len() == i,
            forall|j: int|
                0 <= j < i ==> entry_outcome_spec(#[trigger] es[j], out_dir@, windows) == Ok::<
                    (bool, Seq<char>, Seq<u8>),
                    Seq<char>,
                >(step_view(steps@[j])),
        decreases n - i,
    {
        let ghost before = entries@;
        let entry = entries.remove(0);
        assert(entry_view(entry) == es[i as int]);
        assert forall|k: int| 0 <= k < entries@.len() implies entry_view(#[trigger] entries@[k]) == es[i + 1 + k] by {
            assert(entries@[k] == before[k + 1]);
        }
        let ghost ev = entry_view(entry);
        match entry_outcome(entry, out_dir, windows) {
            Ok(s) => {
                steps.push(s);
            },
            Err(m) => {
                assert(entry_outcome_spec(es[i as int], out_dir@, windows) == Err::<
                    (bool, Seq<char>, Seq<u8>),
                    Seq<char>,
                >(m@));
                return ZipExtraction { steps, result: Err(m) };
            },
        }
        i = i + 1;
    }
    let result = match fault_part {
        None => Ok(()),
        Some(ZipFault::Archive(e)) => {
            let mut v: Vec<char> = Vec::new();
            push_str(&mut v, "invalid zip archive: ");
            push_str(&mut v, e.as_str());
            Err(string_of(&v))
        },
        Some(ZipFault::Entry(e)) => {
            let mut v: Vec<char> = Vec::new();
            push_str(&mut v, "zip entry error: ");
            push_str(&mut v, e.as_str());
            Err(string_of(&v))
        },
    };
    ZipExtraction { steps, result }
}

} // verus!
