//! Archive rules: reading XAPK and APK archives held in memory, which
//! entries are signature files, which files are APK splits, how entries are
//! named and ordered, how an APK is rewritten, and how the finished XAPK is
//! checked.
use vstd::prelude::*;
use crate::order::{char_rows, sorted_selection, sorted_selection_exec};
use vstd::utf8::{decode_utf8, encode_utf8, valid_utf8};
use crate::text::{
    chars_end_with, chars_equal, chars_of, chars_start_with, forward_slash, has_prefix, has_suffix,
    map_chars, push_char, upper_slash,
};

verus! {

/// Position of the last `'.'` before position `k`.
pub open spec fn last_dot_before(s: Seq<char>, k: int) -> Option<int>
    decreases k,
{
    if k <= 0 {
        None
    } else if s[k - 1] == '.' {
        Some(k - 1)
    } else {
        last_dot_before(s, k - 1)
    }
}

/// The extension of a file name as `Path::extension` gives it: the text after
/// the last `'.'`, if that dot is not the first character (and the name is
/// not `".."`).
pub open spec fn file_extension(name: Seq<char>) -> Option<Seq<char>> {
    if name == ".."@ {
        None
    } else {
        match last_dot_before(name, name.len() as int) {
            Some(d) => if d > 0 {
                Some(name.subrange(d + 1, name.len() as int))
            } else {
                None
            },
            None => None,
        }
    }
}

/// The stem of a file name as `Path::file_stem` gives it: the text before the
/// last `'.'`, or the whole name when there is no extension.
pub open spec fn file_stem(name: Seq<char>) -> Seq<char> {
    if name == ".."@ {
        name
    } else {
        match last_dot_before(name, name.len() as int) {
            Some(d) => if d > 0 {
                name.subrange(0, d)
            } else {
                name
            },
            None => name,
        }
    }
}

fn last_dot(s: &Vec<char>) -> (r: Option<usize>)
    ensures
        r matches Some(d) ==> last_dot_before(s@, s@.len() as int) == Some(d as int) && d < s.len(),
        r is None ==> last_dot_before(s@, s@.len() as int) is None,
{
    let mut k: usize = s.len();
    while k > 0
        invariant
            k <= s.len(),
            last_dot_before(s@, s@.len() as int) == last_dot_before(s@, k as int),
        decreases k,
    {
        if s[k - 1] == '.' {
            return Some(k - 1);
        }
        k = k - 1;
    }
    None
}

fn string_from_range(cs: &Vec<char>, from: usize, to: usize) -> (r: String)
    requires
        from <= to <= cs.len(),
    ensures
        r@ == cs@.subrange(from as int, to as int),
{
    let mut r = String::new();
    let mut i: usize = from;
    while i < to
        invariant
            from <= i <= to <= cs.len(),
            r@ == cs@.subrange(from as int, i as int),
        decreases to - i,
    {
        push_char(&mut r, cs[i]);
        i = i + 1;
        assert(r@ =~= cs@.subrange(from as int, i as int));
    }
    r
}

/// Whether the file name has extension `ext`.
pub fn has_extension(file_name: &str, ext: &str) -> (b: bool)
    ensures
        b == (file_extension(file_name@) == Some(ext@)),
{
    let cs = chars_of(file_name);
    if chars_equal(&cs, "..") {
        return false;
    }
    match last_dot(&cs) {
        Some(d) => {
            if d == 0 {
                return false;
            }
            let mut tail: Vec<char> = Vec::new();
            let mut i: usize = d + 1;
            while i < cs.len()
                invariant
                    d < i <= cs.len(),
                    tail@ == cs@.subrange(d + 1, i as int),
                decreases cs.len() - i,
            {
                tail.push(cs[i]);
                i = i + 1;
                assert(tail@ =~= cs@.subrange(d + 1, i as int));
            }
            chars_equal(&tail, ext)
        },
        None => false,
    }
}

/// The stem of a file name (`Path::file_stem`).
pub fn file_stem_of(file_name: &str) -> (stem: String)
    ensures
        stem@ == file_stem(file_name@),
{
    let cs = chars_of(file_name);
    if chars_equal(&cs, "..") {
        return string_from_range(&cs, 0, cs.len());
    }
    match last_dot(&cs) {
        Some(d) => if d > 0 {
            string_from_range(&cs, 0, d)
        } else {
            string_from_range(&cs, 0, cs.len())
        },
        None => string_from_range(&cs, 0, cs.len()),
    }
}

} // verus!

verus! {

/// An entry name that holds APK signing data: the source stamp certificate,
/// the JAR manifest, or a signature or signature-block file under
/// `META-INF/`, compared case-insensitively with `'\\'` taken as `'/'`.
pub open spec fn signature_entry(name: Seq<char>) -> bool {
    let u = name.map_values(|c: char| upper_slash(c));
    ||| u == "STAMP-CERT-SHA256"@
    ||| u == "META-INF/MANIFEST.MF"@
    ||| (has_prefix(u, "META-INF/"@) && (has_suffix(u, ".RSA"@) || has_suffix(u, ".DSA"@)
        || has_suffix(u, ".EC"@) || has_suffix(u, ".SF"@)))
}

/// Whether the entry `name` holds APK signing data, which re-signing
/// replaces.
pub fn is_signature_entry(name: &str) -> (b: bool)
    ensures
        b == signature_entry(name@),
{
    let cs = chars_of(name);
    let u = map_chars(&cs, true);
    assert(u@ =~= name@.map_values(|c: char| upper_slash(c)));
    chars_equal(&u, "STAMP-CERT-SHA256") || chars_equal(&u, "META-INF/MANIFEST.MF") || (
    chars_start_with(&u, "META-INF/") && (chars_end_with(&u, ".RSA") || chars_end_with(&u, ".DSA")
        || chars_end_with(&u, ".EC") || chars_end_with(&u, ".SF")))
}

/// Name of an archive entry for a file at the relative path `relative`:
/// `'\\'` separators become `'/'`.
pub fn archive_entry_name(relative: &str) -> (name: String)
    ensures
        name@ == relative@.map_values(|c: char| forward_slash(c)),
{
    let cs = chars_of(relative);
    let m = map_chars(&cs, false);
    assert(m@ =~= relative@.map_values(|c: char| forward_slash(c)));
    let mut name = String::new();
    crate::text::push_chars(&mut name, &m);
    name
}

/// The characters of each string.
pub open spec fn texts(v: Seq<String>) -> Seq<Seq<char>> {
    v.map_values(|s: String| s@)
}

fn chars_of_all(v: &Vec<String>) -> (r: Vec<Vec<char>>)
    ensures
        char_rows(r@) == texts(v@),
        r@.len() == v@.len(),
{
    let mut r: Vec<Vec<char>> = Vec::new();
    let mut i: usize = 0;
    while i < v.len()
        invariant
            i <= v.len(),
            r@.len() == i,
            forall|k: int| 0 <= k < i ==> #[trigger] r@[k]@ == v@[k]@,
        decreases v.len() - i,
    {
        r.push(chars_of(v[i].as_str()));
        i = i + 1;
    }
    assert(char_rows(r@) =~= texts(v@));
    r
}

/// File names that are APK splits.
pub open spec fn apk_selection(names: Seq<String>) -> Seq<bool> {
    names.map_values(|n: String| file_extension(n@) == Some("apk"@))
}

/// Of the file names in one directory, the positions of those with extension
/// `apk`, in name order.
pub fn apk_files(file_names: &Vec<String>) -> (order: Vec<usize>)
    ensures
        sorted_selection(texts(file_names@), apk_selection(file_names@), order@),
{
    let keys = chars_of_all(file_names);
    let mut selected: Vec<bool> = Vec::new();
    let mut i: usize = 0;
    while i < file_names.len()
        invariant
            i <= file_names.len(),
            selected@.len() == i,
            forall|k: int| 0 <= k < i ==> #[trigger] selected@[k] == apk_selection(file_names@)[k],
        decreases file_names.len() - i,
    {
        selected.push(has_extension(file_names[i].as_str(), "apk"));
        i = i + 1;
    }
    assert(selected@ =~= apk_selection(file_names@));
    sorted_selection_exec(&keys, &selected)
}

/// Every position selected.
pub open spec fn all_selected(n: nat) -> Seq<bool> {
    Seq::new(n, |k: int| true)
}

/// The order in which files are stored in the XAPK: by entry name, equal
/// names keeping their order.
pub fn archive_order(entry_names: &Vec<String>) -> (order: Vec<usize>)
    ensures
        sorted_selection(texts(entry_names@), all_selected(entry_names@.len()), order@),
{
    let keys = chars_of_all(entry_names);
    let mut selected: Vec<bool> = Vec::new();
    let mut i: usize = 0;
    while i < entry_names.len()
        invariant
            i <= entry_names.len(),
            selected@.len() == i,
            forall|k: int| 0 <= k < i ==> #[trigger] selected@[k],
        decreases entry_names.len() - i,
    {
        selected.push(true);
        i = i + 1;
    }
    assert(selected@ =~= all_selected(entry_names@.len()));
    sorted_selection_exec(&keys, &selected)
}

} // verus!

verus! {

/// What the rewrite needs to know of an entry of the source archive.
#[derive(Debug, Clone, PartialEq, Eq)]
pub struct ArchiveEntry {
    pub name: String,
    pub is_dir: bool,
    /// The entry is stored without compression.
    pub stored: bool,
    /// Unix permission bits, where the archive records them.
    pub unix_mode: Option<u32>,
}

/// Compression of a written entry.
#[derive(Debug, Clone, PartialEq, Eq)]
pub enum Compression {
    Stored,
    Deflated,
}

/// How an entry is written to the new archive.
#[derive(Debug, Clone, PartialEq, Eq)]
pub struct WriteOptions {
    pub compression: Compression,
    pub unix_mode: Option<u32>,
}

/// What happens to one entry of the source archive.
#[derive(Debug, Clone, PartialEq, Eq)]
pub enum EntryAction {
    /// Left out: signing data, which re-signing replaces.
    Skip,
    /// Added as a directory.
    Directory(WriteOptions),
    /// Written with the bytes of the replacement at this position.
    Replace(WriteOptions, usize),
    /// Copied unchanged.
    Copy(WriteOptions),
}

/// Stored entries stay stored; every other entry is deflated; Unix
/// permissions are kept.
pub open spec fn options_for(e: ArchiveEntry) -> WriteOptions {
    WriteOptions {
        compression: if e.stored {
            Compression::Stored
        } else {
            Compression::Deflated
        },
        unix_mode: e.unix_mode,
    }
}

/// How the entry is written to the rewritten archive.
pub fn entry_options(entry: &ArchiveEntry) -> (o: WriteOptions)
    ensures
        o == options_for(*entry),
{
    WriteOptions {
        compression: if entry.stored {
            Compression::Stored
        } else {
            Compression::Deflated
        },
        unix_mode: entry.unix_mode,
    }
}

/// The last position below `k` whose name is `name`.
pub open spec fn last_named_before(names: Seq<Seq<char>>, name: Seq<char>, k: int) -> Option<int>
    decreases k,
{
    if k <= 0 {
        None
    } else if names[k - 1] == name {
        Some(k - 1)
    } else {
        last_named_before(names, name, k - 1)
    }
}

/// The action for entry `e` given the names of the replacements: signing
/// data is skipped, directories are re-added, a file whose name has
/// replacements takes the last of them, any other file is copied.
pub open spec fn action_for(e: ArchiveEntry, names: Seq<Seq<char>>) -> EntryAction {
    if signature_entry(e.name@) {
        EntryAction::Skip
    } else if e.is_dir {
        EntryAction::Directory(options_for(e))
    } else {
        match last_named_before(names, e.name@, names.len() as int) {
            Some(k) => EntryAction::Replace(options_for(e), k as usize),
            None => EntryAction::Copy(options_for(e)),
        }
    }
}

proof fn lemma_last_named_before(names: Seq<Seq<char>>, name: Seq<char>, k: int)
    requires
        0 <= k <= names.len(),
    ensures
        match last_named_before(names, name, k) {
            Some(r) => 0 <= r < k && names[r] == name && forall|j: int|
                r < j < k ==> #[trigger] names[j] != name,
            None => forall|j: int| 0 <= j < k ==> #[trigger] names[j] != name,
        },
    decreases k,
{
    if k > 0 && names[k - 1] != name {
        lemma_last_named_before(names, name, k - 1);
    }
}

/// How each entry of an APK is rewritten: signing data is dropped,
/// directories are re-added, a file named by a replacement takes the last
/// replacement of that name, and every other file is copied. Every kept
/// entry keeps its compression (a stored entry stays stored, any other is
/// deflated) and its Unix mode.
pub proof fn law_entry_rewrite(e: ArchiveEntry, names: Seq<Seq<char>>)
    requires
        names.len() <= usize::MAX,
    ensures
        action_for(e, names) is Skip <==> signature_entry(e.name@),
        action_for(e, names) is Directory <==> (!signature_entry(e.name@) && e.is_dir),
        action_for(e, names) is Copy <==> (!signature_entry(e.name@) && !e.is_dir && forall|j: int|
            0 <= j < names.len() ==> #[trigger] names[j] != e.name@),
        action_for(e, names) matches EntryAction::Replace(_, k) ==> (k < names.len() && names[k as int]
            == e.name@ && forall|j: int| k < j < names.len() ==> #[trigger] names[j] != e.name@),
        match action_for(e, names) {
            EntryAction::Skip => true,
            EntryAction::Directory(o) => (o.compression is Stored <==> e.stored) && o.unix_mode
                == e.unix_mode,
            EntryAction::Replace(o, _) => (o.compression is Stored <==> e.stored) && o.unix_mode
                == e.unix_mode,
            EntryAction::Copy(o) => (o.compression is Stored <==> e.stored) && o.unix_mode
                == e.unix_mode,
        },
{
    lemma_last_named_before(names, e.name@, names.len() as int);
}

/// What to do with one entry when rewriting an APK with the given
/// replacements.
pub fn plan_entry(entry: &ArchiveEntry, replacement_names: &Vec<String>) -> (a: EntryAction)
    ensures
        a == action_for(*entry, texts(replacement_names@)),
{
    if is_signature_entry(entry.name.as_str()) {
        return EntryAction::Skip;
    }
    if entry.is_dir {
        return EntryAction::Directory(entry_options(entry));
    }
    let ghost names = texts(replacement_names@);
    let mut k: usize = replacement_names.len();
    while k > 0
        invariant
            k <= replacement_names.len(),
            names == texts(replacement_names@),
            !signature_entry(entry.name@),
            !entry.is_dir,
            last_named_before(names, entry.name@, names.len() as int) == last_named_before(
                names,
                entry.name@,
                k as int,
            ),
        decreases k,
    {
        assert(names[k - 1] == replacement_names@[k - 1]@);
        if replacement_names[k - 1] == entry.name {
            return EntryAction::Replace(entry_options(entry), k - 1);
        }
        k = k - 1;
    }
    EntryAction::Copy(entry_options(entry))
}

/// Some entry of `entries` is a file (not signing data, not a directory)
/// named `name`, so a replacement named `name` is written.
pub open spec fn written(entries: Seq<ArchiveEntry>, name: Seq<char>) -> bool
    decreases entries.len(),
{
    entries.len() > 0 && (written(entries.drop_last(), name) || (entries.last().name@ == name
        && !signature_entry(name) && !entries.last().is_dir))
}

/// The first replacement, from position `k` on, that no entry takes.
pub open spec fn first_unwritten_from(entries: Seq<ArchiveEntry>, names: Seq<Seq<char>>, k: int) -> Option<int>
    decreases names.len() - k,
{
    if k >= names.len() || k < 0 {
        None
    } else if !written(entries, names[k]) {
        Some(k)
    } else {
        first_unwritten_from(entries, names, k + 1)
    }
}

/// The actions for every entry, and the first replacement that no entry
/// takes (its position), if any.
#[derive(Debug, Clone, PartialEq, Eq)]
pub struct RewritePlan {
    pub actions: Vec<EntryAction>,
    pub missing: Option<usize>,
}

fn is_written(entries: &Vec<ArchiveEntry>, name: &String) -> (b: bool)
    ensures
        b == written(entries@, name@),
{
    let mut found = false;
    let mut j: usize = 0;
    while j < entries.len()
        invariant
            j <= entries.len(),
            found == written(entries@.take(j as int), name@),
        decreases entries.len() - j,
    {
        assert(entries@.take(j + 1).drop_last() =~= entries@.take(j as int));
        let e = &entries[j];
        if !found && e.name == *name && !e.is_dir && !is_signature_entry(e.name.as_str()) {
            found = true;
        }
        j = j + 1;
    }
    assert(entries@.take(entries.len() as int) =~= entries@);
    found
}

/// Plans the rewrite of an APK: an action for each of its entries, and the
/// first replacement (by position) that no entry takes, which makes the
/// rewrite fail.
pub fn plan_rewrite(entries: &Vec<ArchiveEntry>, replacement_names: &Vec<String>) -> (plan: RewritePlan)
    ensures
        plan.actions@.len() == entries@.len(),
        forall|j: int|
            0 <= j < entries@.len() ==> #[trigger] plan.actions@[j] == action_for(
                entries@[j],
                texts(replacement_names@),
            ),
        match first_unwritten_from(entries@, texts(replacement_names@), 0) {
            Some(k) => plan.missing == Some(k as usize),
            None => plan.missing is None,
        },
{
    let mut actions: Vec<EntryAction> = Vec::new();
    let mut j: usize = 0;
    while j < entries.len()
        invariant
            j <= entries.len(),
            actions@.len() == j,
            forall|i: int|
                0 <= i < j ==> #[trigger] actions@[i] == action_for(
                    entries@[i],
                    texts(replacement_names@),
                ),
        decreases entries.len() - j,
    {
        actions.push(plan_entry(&entries[j], replacement_names));
        j = j + 1;
    }
    let ghost names = texts(replacement_names@);
    let mut k: usize = 0;
    while k < replacement_names.len()
        invariant
            k <= replacement_names.len(),
            names == texts(replacement_names@),
            first_unwritten_from(entries@, names, 0) == first_unwritten_from(entries@, names, k as int),
            actions@.len() == entries@.len(),
            forall|i: int|
                0 <= i < entries@.len() ==> #[trigger] actions@[i] == action_for(
                    entries@[i],
                    texts(replacement_names@),
                ),
        decreases replacement_names.len() - k,
    {
        assert(names[k as int] == replacement_names@[k as int]@);
        if !is_written(entries, &replacement_names[k]) {
            return RewritePlan { actions, missing: Some(k) };
        }
        k = k + 1;
    }
    RewritePlan { actions, missing: None }
}

} // verus!

verus! {

/// The error type of the `zip` crate.
#[verifier::external_type_specification]
#[verifier::external_body]
pub struct ExZipError(zip::result::ZipError);

/// The archive reader of the `zip` crate.
#[verifier::external_type_specification]
#[verifier::external_body]
#[verifier::reject_recursive_types(R)]
pub struct ExZipArchive<R>(zip::ZipArchive<R>);

/// An in-memory reader of the standard library.
#[verifier::external_type_specification]
#[verifier::external_body]
#[verifier::reject_recursive_types(T)]
pub struct ExCursor<T>(std::io::Cursor<T>);

/// The I/O error type of the standard library.
#[verifier::external_type_specification]
#[verifier::external_body]
pub struct ExIoError(std::io::Error);

/// Why an entry could not be read, as the wrappers of the ZIP reader tell it.
enum EntryReadError {
    /// The archive has no entry of that name (`ZipError::FileNotFound`).
    NotFound(zip::result::ZipError),
    /// The entry could not be opened.
    Zip(zip::result::ZipError),
    /// The entry could not be read to its end.
    Io(std::io::Error),
}

/// Why an archive, or an entry of it, could not be read.
#[derive(Debug)]
pub enum ArchiveError {
    /// The ZIP reader refused the archive or the entry.
    Zip(zip::result::ZipError),
    /// An entry could not be read to its end.
    Io(std::io::Error),
    /// The entry's name (given here) leads outside the directory that the
    /// archive is unpacked to.
    UnsafePath(String),
}

/// An opened in-memory ZIP archive.
pub type MemoryZip = zip::ZipArchive<std::io::Cursor<Vec<u8>>>;

/// The bytes that an opened in-memory archive reads from.
pub uninterp spec fn zip_source(archive: zip::ZipArchive<std::io::Cursor<Vec<u8>>>) -> Seq<u8>;

/// Whether `ZipArchive::new` accepts the bytes as a ZIP archive.
pub uninterp spec fn zip_opens(bytes: Seq<u8>) -> bool;

/// `ZipArchive::len` of the archive held in the bytes: the number of entries
/// of its central directory.
pub uninterp spec fn zip_count(bytes: Seq<u8>) -> nat;

/// `ZipArchive::index_for_name`: the index of the entry with that name.
pub uninterp spec fn zip_index_of(bytes: Seq<u8>, name: Seq<char>) -> Option<nat>;

/// Whether `ZipArchive::by_index` opens the entry at that index.
pub uninterp spec fn zip_entry_opens(bytes: Seq<u8>, index: nat) -> bool;

/// `ZipFile::name` of the entry at that index, when the name decodes.
pub uninterp spec fn zip_entry_name(bytes: Seq<u8>, index: nat) -> Option<Seq<char>>;

/// `ZipFile::is_dir` of the entry at that index.
pub uninterp spec fn zip_entry_is_dir(bytes: Seq<u8>, index: nat) -> bool;

/// Whether `ZipFile::compression` of the entry at that index is `Stored`.
pub uninterp spec fn zip_entry_stored(bytes: Seq<u8>, index: nat) -> bool;

/// `ZipFile::unix_mode` of the entry at that index.
pub uninterp spec fn zip_entry_unix_mode(bytes: Seq<u8>, index: nat) -> Option<u32>;

/// `ZipFile::enclosed_name` of the entry at that index, as text.
pub uninterp spec fn zip_entry_enclosed(bytes: Seq<u8>, index: nat) -> Option<Seq<char>>;

/// The bytes that `Read::read_to_end` gives for the entry at that index,
/// when it reads to the end without error.
pub uninterp spec fn zip_entry_data(bytes: Seq<u8>, index: nat) -> Option<Seq<u8>>;

/// The characters of an optional string.
pub open spec fn text_of(o: Option<String>) -> Option<Seq<char>> {
    match o {
        Some(s) => Some(s@),
        None => None,
    }
}

/// The metadata of one entry, as the ZIP reader gives it.
struct EntryInfo {
    name: Result<String, zip::result::ZipError>,
    is_dir: bool,
    stored: bool,
    unix_mode: Option<u32>,
    enclosed: Option<String>,
}

/// `ZipArchive::new` over a `Cursor` on `bytes`. Claimed: it succeeds
/// exactly when `zip_opens` holds of the bytes (named, not described), and
/// the archive then reads those bytes.
#[verifier::external_body]
fn open_zip(bytes: Vec<u8>) -> (r: Result<MemoryZip, zip::result::ZipError>)
    ensures
        r is Ok <==> zip_opens(bytes@),
        r matches Ok(a) ==> zip_source(a) == bytes@,
{
    zip::ZipArchive::new(std::io::Cursor::new(bytes))
}

/// `ZipArchive::len`. Claimed: the named entry count of the bytes.
#[verifier::external_body]
fn zip_len(archive: &MemoryZip) -> (n: usize)
    ensures
        n == zip_count(zip_source(*archive)),
{
    archive.len()
}

/// `ZipArchive::by_index`, then the entry's `name`, `is_dir`, `compression`,
/// `unix_mode` and `enclosed_name`. Claimed: it succeeds exactly when the
/// named `zip_entry_opens` holds, only for an index below the entry count;
/// each field is the named result; the archive reads the same bytes after.
/// The enclosed path is made of the decoded name, so its text is exact.
#[verifier::external_body]
fn zip_entry_info(archive: &mut MemoryZip, index: usize) -> (r: Result<EntryInfo, zip::result::ZipError>)
    ensures
        zip_source(*final(archive)) == zip_source(*old(archive)),
        r is Ok <==> zip_entry_opens(zip_source(*old(archive)), index as nat),
        r is Ok ==> index < zip_count(zip_source(*old(archive))),
        r matches Ok(e) ==> {
            let b = zip_source(*old(archive));
            let i = index as nat;
            &&& (e.name is Ok <==> zip_entry_name(b, i) is Some)
            &&& (e.name matches Ok(n) ==> zip_entry_name(b, i) == Some(n@))
            &&& e.is_dir == zip_entry_is_dir(b, i)
            &&& e.stored == zip_entry_stored(b, i)
            &&& e.unix_mode == zip_entry_unix_mode(b, i)
            &&& text_of(e.enclosed) == zip_entry_enclosed(b, i)
        },
{
    let entry = archive.by_index(index)?;
    let name = match entry.name() { Ok(name) => Ok(name.into_owned()), Err(e) => Err(e) };
    let stored = match entry.compression() { zip::CompressionMethod::Stored => true, _ => false };
    let enclosed = match entry.enclosed_name() {
        Some(path) => Some(path.to_string_lossy().into_owned()),
        None => None,
    };
    Ok(EntryInfo { name, is_dir: entry.is_dir(), stored, unix_mode: entry.unix_mode(), enclosed })
}

/// `ZipArchive::by_index`, then `Read::read_to_end` on the entry. Claimed:
/// a `Zip` error exactly when the entry does not open, else the named bytes
/// or an `Io` error; the archive reads the same bytes after.
#[verifier::external_body]
fn zip_entry_read(archive: &mut MemoryZip, index: usize) -> (r: Result<Vec<u8>, EntryReadError>)
    ensures
        zip_source(*final(archive)) == zip_source(*old(archive)),
        r is Ok <==> zip_entry_data(zip_source(*old(archive)), index as nat) is Some,
        r matches Ok(v) ==> zip_entry_data(zip_source(*old(archive)), index as nat) == Some(v@),
        r matches Err(EntryReadError::Zip(_)) <==> !zip_entry_opens(
            zip_source(*old(archive)),
            index as nat,
        ),
        !(r matches Err(EntryReadError::NotFound(_))),
{
    let mut entry = match archive.by_index(index) {
        Ok(entry) => entry,
        Err(e) => return Err(EntryReadError::Zip(e)),
    };
    let mut bytes = Vec::new();
    match std::io::Read::read_to_end(&mut entry, &mut bytes) {
        Ok(_) => Ok(bytes),
        Err(e) => Err(EntryReadError::Io(e)),
    }
}

/// `ZipArchive::by_name`, then `Read::read_to_end` on the entry. `by_name`
/// is `index_for_name` followed by the same read as `by_index`, and fails
/// with `FileNotFound` only when no index is found. Claimed: `NotFound`
/// exactly when the named index is absent, else the named bytes of the entry
/// at that index, or another error; the archive reads the same bytes after.
#[verifier::external_body]
fn zip_read_by_name(archive: &mut MemoryZip, name: &str) -> (r: Result<Vec<u8>, EntryReadError>)
    ensures
        zip_source(*final(archive)) == zip_source(*old(archive)),
        r matches Err(EntryReadError::NotFound(_)) <==> zip_index_of(
            zip_source(*old(archive)),
            name@,
        ) is None,
        zip_index_of(zip_source(*old(archive)), name@) matches Some(i) ==> ((r is Ok
            <==> zip_entry_data(zip_source(*old(archive)), i) is Some) && (r matches Ok(v)
            ==> zip_entry_data(zip_source(*old(archive)), i) == Some(v@))),
{
    let mut entry = match archive.by_name(name) {
        Ok(entry) => entry,
        Err(e @ zip::result::ZipError::FileNotFound) => return Err(EntryReadError::NotFound(e)),
        Err(e) => return Err(EntryReadError::Zip(e)),
    };
    let mut bytes = Vec::new();
    match std::io::Read::read_to_end(&mut entry, &mut bytes) {
        Ok(_) => Ok(bytes),
        Err(e) => Err(EntryReadError::Io(e)),
    }
}

/// Reading entry `name` of the archive `bytes`: `None` when the read fails,
/// `Some(None)` when the archive has no entry of that name, `Some(Some(b))`
/// with the entry's bytes.
pub open spec fn entry_lookup(bytes: Seq<u8>, name: Seq<char>) -> Option<Option<Seq<u8>>> {
    if !zip_opens(bytes) {
        None
    } else {
        match zip_index_of(bytes, name) {
            None => Some(None),
            Some(i) => match zip_entry_data(bytes, i) {
                Some(b) => Some(Some(b)),
                None => None,
            },
        }
    }
}

/// The bytes of entry `name` of the archive `bytes`, when it can be read.
pub open spec fn zip_entry_content(bytes: Seq<u8>, name: Seq<char>) -> Option<Seq<u8>> {
    match entry_lookup(bytes, name) {
        Some(Some(b)) => Some(b),
        _ => None,
    }
}

/// Opens the ZIP archive held in `bytes`.
pub fn open_archive(bytes: Vec<u8>) -> (r: Result<MemoryZip, ArchiveError>)
    ensures
        r is Ok <==> zip_opens(bytes@),
        r matches Ok(a) ==> zip_source(a) == bytes@,
        r matches Err(e) ==> e is Zip,
{
    match open_zip(bytes) {
        Ok(archive) => Ok(archive),
        Err(e) => Err(ArchiveError::Zip(e)),
    }
}

/// The number of entries of an opened archive.
pub fn entry_count(archive: &MemoryZip) -> (n: usize)
    ensures
        n == zip_count(zip_source(*archive)),
{
    zip_len(archive)
}

/// The bytes of the entry at `index` of an opened archive.
pub fn entry_data(archive: &mut MemoryZip, index: usize) -> (r: Result<Vec<u8>, ArchiveError>)
    ensures
        zip_source(*final(archive)) == zip_source(*old(archive)),
        r is Ok <==> zip_entry_data(zip_source(*old(archive)), index as nat) is Some,
        r matches Ok(v) ==> zip_entry_data(zip_source(*old(archive)), index as nat) == Some(v@),
        r matches Err(e) ==> (e is Zip || e is Io),
{
    match zip_entry_read(archive, index) {
        Ok(v) => Ok(v),
        Err(EntryReadError::NotFound(e)) => Err(ArchiveError::Zip(e)),
        Err(EntryReadError::Zip(e)) => Err(ArchiveError::Zip(e)),
        Err(EntryReadError::Io(e)) => Err(ArchiveError::Io(e)),
    }
}

/// Reads entry `name` of the ZIP archive held in `archive`; `None` when the
/// archive has no entry of that name.
pub fn zip_entry(archive: Vec<u8>, name: &str) -> (r: Result<Option<Vec<u8>>, ArchiveError>)
    ensures
        match r {
            Ok(Some(v)) => entry_lookup(archive@, name@) == Some(Some(v@)),
            Ok(None) => entry_lookup(archive@, name@) == Some(None::<Seq<u8>>),
            Err(e) => entry_lookup(archive@, name@) is None && (e is Zip || e is Io),
        },
{
    let mut zip = match open_zip(archive) {
        Ok(zip) => zip,
        Err(e) => return Err(ArchiveError::Zip(e)),
    };
    match zip_read_by_name(&mut zip, name) {
        Ok(v) => Ok(Some(v)),
        Err(EntryReadError::NotFound(_)) => Ok(None),
        Err(EntryReadError::Zip(e)) => Err(ArchiveError::Zip(e)),
        Err(EntryReadError::Io(e)) => Err(ArchiveError::Io(e)),
    }
}

/// One entry to unpack: its path below the destination, whether it is a
/// directory, and, for a file, its bytes.
pub struct ExtractedEntry {
    pub path: String,
    pub is_dir: bool,
    pub bytes: Vec<u8>,
}

/// The entry at `index` of an opened archive, as it is unpacked: refused
/// when its name leads outside the destination; a directory's bytes are not
/// read.
pub fn extraction_entry(archive: &mut MemoryZip, index: usize) -> (r: Result<ExtractedEntry, ArchiveError>)
    ensures
        zip_source(*final(archive)) == zip_source(*old(archive)),
        ({
            let b = zip_source(*old(archive));
            let i = index as nat;
            &&& !zip_entry_opens(b, i) ==> (r matches Err(ArchiveError::Zip(_)))
            &&& (zip_entry_opens(b, i) && zip_entry_enclosed(b, i) is None) ==> (match zip_entry_name(b, i) {
                Some(n) => r matches Err(ArchiveError::UnsafePath(p)) && p@ == n,
                None => r matches Err(ArchiveError::Zip(_)),
            })
            &&& (zip_entry_opens(b, i) && zip_entry_is_dir(b, i) && zip_entry_enclosed(b, i) is Some) ==> (r matches Ok(e) && text_of(Some(e.path)) == zip_entry_enclosed(b, i) && e.is_dir && e.bytes@.len() == 0)
            &&& (zip_entry_opens(b, i) && !zip_entry_is_dir(b, i) && zip_entry_enclosed(b, i) is Some) ==> (match zip_entry_data(b, i) {
                Some(d) => r matches Ok(e) && text_of(Some(e.path)) == zip_entry_enclosed(b, i) && !e.is_dir && e.bytes@ == d,
                None => r matches Err(ArchiveError::Io(_)),
            })
        }),
{
    let info = match zip_entry_info(archive, index) {
        Ok(info) => info,
        Err(e) => return Err(ArchiveError::Zip(e)),
    };
    let path = match info.enclosed {
        Some(path) => path,
        None => return match info.name {
            Ok(name) => Err(ArchiveError::UnsafePath(name)),
            Err(e) => Err(ArchiveError::Zip(e)),
        },
    };
    if info.is_dir {
        return Ok(ExtractedEntry { path, is_dir: true, bytes: Vec::new() });
    }
    match zip_entry_read(archive, index) {
        Ok(bytes) => Ok(ExtractedEntry { path, is_dir: false, bytes }),
        Err(EntryReadError::NotFound(e)) => Err(ArchiveError::Zip(e)),
        Err(EntryReadError::Zip(e)) => Err(ArchiveError::Zip(e)),
        Err(EntryReadError::Io(e)) => Err(ArchiveError::Io(e)),
    }
}

/// The entry at `index` opens and its name decodes.
pub open spec fn entry_listed(bytes: Seq<u8>, index: nat) -> bool {
    zip_entry_opens(bytes, index) && zip_entry_name(bytes, index) is Some
}

/// `e` describes the entry at `index` of the archive `bytes`.
pub open spec fn describes(e: ArchiveEntry, bytes: Seq<u8>, index: nat) -> bool {
    &&& zip_entry_name(bytes, index) == Some(e.name@)
    &&& e.is_dir == zip_entry_is_dir(bytes, index)
    &&& e.stored == zip_entry_stored(bytes, index)
    &&& e.unix_mode == zip_entry_unix_mode(bytes, index)
}

/// The entries of an opened APK, in index order, as its rewrite plan needs
/// them; refused when an entry does not open or its name does not decode.
pub fn apk_entries(archive: &mut MemoryZip) -> (r: Result<Vec<ArchiveEntry>, ArchiveError>)
    ensures
        zip_source(*final(archive)) == zip_source(*old(archive)),
        r is Ok <==> forall|i: nat|
            i < zip_count(zip_source(*old(archive))) ==> #[trigger] entry_listed(
                zip_source(*old(archive)),
                i,
            ),
        r matches Ok(v) ==> v@.len() == zip_count(zip_source(*old(archive))) && forall|i: int|
            0 <= i < v@.len() ==> #[trigger] describes(v@[i], zip_source(*old(archive)), i as nat),
        r matches Err(e) ==> e is Zip,
{
    let ghost b = zip_source(*archive);
    let n = zip_len(archive);
    let mut entries: Vec<ArchiveEntry> = Vec::new();
    let mut i: usize = 0;
    while i < n
        invariant
            i <= n,
            n == zip_count(b),
            zip_source(*archive) == b,
            b == zip_source(*old(archive)),
            entries@.len() == i,
            forall|k: nat| k < i ==> #[trigger] entry_listed(b, k),
            forall|k: int| 0 <= k < i ==> #[trigger] describes(entries@[k], b, k as nat),
        decreases n - i,
    {
        let info = match zip_entry_info(archive, i) {
            Ok(info) => info,
            Err(e) => {
                assert(!entry_listed(b, i as nat));
                return Err(ArchiveError::Zip(e));
            },
        };
        let name = match info.name {
            Ok(name) => name,
            Err(e) => {
                assert(!entry_listed(b, i as nat));
                return Err(ArchiveError::Zip(e));
            },
        };
        entries.push(ArchiveEntry { name, is_dir: info.is_dir, stored: info.stored, unix_mode: info.unix_mode });
        i = i + 1;
    }
    Ok(entries)
}

/// The decoded names of the entries of the archive `bytes` that open, among
/// the first `k`, in index order.
pub open spec fn readable_names(bytes: Seq<u8>, k: nat) -> Seq<Seq<char>>
    decreases k,
{
    if k == 0 {
        Seq::empty()
    } else {
        let prev = readable_names(bytes, (k - 1) as nat);
        match zip_entry_name(bytes, (k - 1) as nat) {
            Some(n) => if zip_entry_opens(bytes, (k - 1) as nat) {
                prev.push(n)
            } else {
                prev
            },
            None => prev,
        }
    }
}

/// The decoded names of the entries of the archive `bytes` that open, in
/// index order.
pub open spec fn zip_entry_names(bytes: Seq<u8>) -> Seq<Seq<char>> {
    readable_names(bytes, zip_count(bytes))
}

/// Why the finished XAPK was rejected.
#[derive(Debug)]
pub enum OutputError {
    /// Its APK splits are not the ones that were patched and signed.
    SplitSetMismatch,
    /// The base APK could not be opened, or an entry of it looked up.
    Zip(zip::result::ZipError),
    /// An entry of the base APK could not be read to its end.
    Io(std::io::Error),
    /// The base APK's settings differ from the patched ones.
    SettingsMismatch,
    /// The base APK's manifest differs from the patched one.
    ManifestMismatch,
}

fn bytes_equal(a: &[u8], b: &[u8]) -> (r: bool)
    ensures
        r == (a@ == b@),
{
    if a.len() != b.len() {
        return false;
    }
    let mut i: usize = 0;
    while i < a.len()
        invariant
            a.len() == b.len(),
            i <= a.len(),
            forall|k: int| 0 <= k < i ==> a@[k] == b@[k],
        decreases a.len() - i,
    {
        if a[i] != b[i] {
            return false;
        }
        i = i + 1;
    }
    assert(a@ =~= b@);
    true
}

/// Some name of `names` is `s`, and, if `apk_only`, ends in `.apk`.
pub open spec fn listed(names: Seq<Seq<char>>, s: Seq<char>, apk_only: bool) -> bool {
    exists|i: int|
        0 <= i < names.len() && #[trigger] names[i] == s && (apk_only ==> has_suffix(
            names[i],
            ".apk"@,
        ))
}

fn is_listed(v: &Vec<String>, s: &String, apk_only: bool) -> (b: bool)
    ensures
        b == listed(texts(v@), s@, apk_only),
{
    let mut i: usize = 0;
    while i < v.len()
        invariant
            i <= v.len(),
            forall|k: int|
                0 <= k < i ==> !(#[trigger] texts(v@)[k] == s@ && (apk_only ==> has_suffix(
                    texts(v@)[k],
                    ".apk"@,
                ))),
        decreases v.len() - i,
    {
        assert(texts(v@)[i as int] == v@[i as int]@);
        if v[i] == *s && (!apk_only || chars_end_with(&chars_of(v[i].as_str()), ".apk")) {
            return true;
        }
        i = i + 1;
    }
    false
}

/// The APK split names `expected` and the names ending in `.apk` among
/// `entry_names` form the same set.
pub open spec fn same_splits(expected: Seq<Seq<char>>, entry_names: Seq<Seq<char>>) -> bool {
    &&& forall|i: int| 0 <= i < expected.len() ==> listed(entry_names, #[trigger] expected[i], true)
    &&& forall|j: int|
        0 <= j < entry_names.len() && has_suffix(#[trigger] entry_names[j], ".apk"@) ==> listed(
            expected,
            entry_names[j],
            false,
        )
}

/// Checks that the finished XAPK holds exactly the APK splits that were
/// patched: the `.apk` entry names, as a set, equal the split names.
pub fn check_split_set(expected: &Vec<String>, entry_names: &Vec<String>) -> (r: Result<(), OutputError>)
    ensures
        r is Ok <==> same_splits(texts(expected@), texts(entry_names@)),
        r is Err ==> r matches Err(OutputError::SplitSetMismatch),
{
    let ghost e = texts(expected@);
    let ghost n = texts(entry_names@);
    let mut i: usize = 0;
    while i < expected.len()
        invariant
            i <= expected.len(),
            e == texts(expected@),
            n == texts(entry_names@),
            forall|k: int| 0 <= k < i ==> listed(n, #[trigger] e[k], true),
        decreases expected.len() - i,
    {
        assert(e[i as int] == expected@[i as int]@);
        if !is_listed(entry_names, &expected[i], true) {
            assert(!listed(n, e[i as int], true));
            return Err(OutputError::SplitSetMismatch);
        }
        i = i + 1;
    }
    let mut j: usize = 0;
    while j < entry_names.len()
        invariant
            j <= entry_names.len(),
            e == texts(expected@),
            n == texts(entry_names@),
            forall|k: int| 0 <= k < e.len() ==> listed(n, #[trigger] e[k], true),
            forall|k: int|
                0 <= k < j && has_suffix(#[trigger] n[k], ".apk"@) ==> listed(e, n[k], false),
        decreases entry_names.len() - j,
    {
        assert(n[j as int] == entry_names@[j as int]@);
        if chars_end_with(&chars_of(entry_names[j].as_str()), ".apk") && !is_listed(
            expected,
            &entry_names[j],
            false,
        ) {
            assert(has_suffix(n[j as int], ".apk"@));
            return Err(OutputError::SplitSetMismatch);
        }
        j = j + 1;
    }
    Ok(())
}

/// What the check of the finished base APK `base` answers: its settings must
/// be the UTF-8 bytes of `settings` and its manifest must be `manifest`;
/// an entry that cannot be read is a ZIP or I/O error.
pub open spec fn base_apk_checked(
    base: Seq<u8>,
    settings: Seq<char>,
    manifest: Seq<u8>,
    r: Result<(), OutputError>,
) -> bool {
    let s = zip_entry_content(base, "assets/settings.txt"@);
    let m = zip_entry_content(base, "AndroidManifest.xml"@);
    &&& s is None ==> (r is Err && (r->Err_0 is Zip || r->Err_0 is Io))
    &&& (s is Some && s->0 != encode_utf8(settings)) ==> (r matches Err(OutputError::SettingsMismatch))
    &&& (s == Some(encode_utf8(settings)) && m is None) ==> (r is Err && (r->Err_0 is Zip
        || r->Err_0 is Io))
    &&& (s == Some(encode_utf8(settings)) && m is Some && m->0 != manifest) ==> (r matches Err(
        OutputError::ManifestMismatch,
    ))
    &&& r is Ok <==> (s == Some(encode_utf8(settings)) && m == Some(manifest))
}

/// The check of a base APK accepts exactly the archives whose settings
/// entry holds the UTF-8 bytes of the expected settings and whose manifest
/// entry holds the expected manifest, byte for byte; a manifest that differs
/// in any byte is refused as a manifest mismatch.
pub proof fn law_base_apk_check_compares_bytes(
    base: Seq<u8>,
    settings: Seq<char>,
    manifest: Seq<u8>,
    r: Result<(), OutputError>,
)
    requires
        base_apk_checked(base, settings, manifest, r),
    ensures
        r is Ok <==> (zip_entry_content(base, "assets/settings.txt"@) == Some(encode_utf8(settings))
            && zip_entry_content(base, "AndroidManifest.xml"@) == Some(manifest)),
        (zip_entry_content(base, "assets/settings.txt"@) == Some(encode_utf8(settings))
            && zip_entry_content(base, "AndroidManifest.xml"@) is Some && zip_entry_content(
            base,
            "AndroidManifest.xml"@,
        )->0 != manifest)
            ==> r matches Err(OutputError::ManifestMismatch),
{
}

/// Reads entry `name` of an opened archive for the output check.
fn output_entry(archive: &mut MemoryZip, name: &str) -> (r: Result<Vec<u8>, OutputError>)
    ensures
        zip_source(*final(archive)) == zip_source(*old(archive)),
        ({
            let b = zip_source(*old(archive));
            let c = match zip_index_of(b, name@) {
                Some(i) => zip_entry_data(b, i),
                None => None,
            };
            &&& r matches Ok(v) ==> c == Some(v@)
            &&& r is Err ==> c is None && (r->Err_0 is Zip || r->Err_0 is Io)
            &&& c is Some ==> r is Ok
        }),
{
    match zip_read_by_name(archive, name) {
        Ok(v) => Ok(v),
        Err(EntryReadError::NotFound(e)) => Err(OutputError::Zip(e)),
        Err(EntryReadError::Zip(e)) => Err(OutputError::Zip(e)),
        Err(EntryReadError::Io(e)) => Err(OutputError::Io(e)),
    }
}

/// Checks the base APK of the finished XAPK: its settings must be the UTF-8
/// bytes of `expected_settings` and its manifest must be `expected_manifest`.
pub fn check_base_apk(base: Vec<u8>, expected_settings: &str, expected_manifest: &[u8]) -> (r: Result<(), OutputError>)
    ensures
        base_apk_checked(base@, expected_settings@, expected_manifest@, r),
        r is Ok <==> (zip_entry_content(base@, "assets/settings.txt"@) == Some(
            encode_utf8(expected_settings@),
        ) && zip_entry_content(base@, "AndroidManifest.xml"@) == Some(expected_manifest@)),
        (zip_entry_content(base@, "assets/settings.txt"@) == Some(encode_utf8(expected_settings@))
            && zip_entry_content(base@, "AndroidManifest.xml"@) is Some && zip_entry_content(
            base@,
            "AndroidManifest.xml"@,
        )->0 != expected_manifest@) ==> r matches Err(OutputError::ManifestMismatch),
{
    let mut zip = match open_zip(base) {
        Ok(zip) => zip,
        Err(e) => return Err(OutputError::Zip(e)),
    };
    let settings = output_entry(&mut zip, "assets/settings.txt")?;
    if !bytes_equal(settings.as_slice(), expected_settings.as_bytes()) {
        return Err(OutputError::SettingsMismatch);
    }
    let manifest = output_entry(&mut zip, "AndroidManifest.xml")?;
    if !bytes_equal(manifest.as_slice(), expected_manifest) {
        return Err(OutputError::ManifestMismatch);
    }
    Ok(())
}

/// Checks the finished XAPK `xapk`: the `.apk` names among its readable
/// entries must be the split names `expected`, and its entry `base_name`
/// must pass the check of the base APK.
pub fn verify_output(
    xapk: Vec<u8>,
    expected: &Vec<String>,
    base_name: &str,
    expected_settings: &str,
    expected_manifest: &[u8],
) -> (r: Result<(), OutputError>)
    ensures
        !zip_opens(xapk@) ==> r matches Err(OutputError::Zip(_)),
        (zip_opens(xapk@) && !same_splits(texts(expected@), zip_entry_names(xapk@))) ==> r matches Err(
            OutputError::SplitSetMismatch,
        ),
        (zip_opens(xapk@) && same_splits(texts(expected@), zip_entry_names(xapk@))) ==> match zip_entry_content(
            xapk@,
            base_name@,
        ) {
            Some(b) => base_apk_checked(b, expected_settings@, expected_manifest@, r),
            None => r is Err && (r->Err_0 is Zip || r->Err_0 is Io),
        },
        r is Ok ==> (zip_opens(xapk@) && same_splits(texts(expected@), zip_entry_names(xapk@))
            && zip_entry_content(xapk@, base_name@) is Some && zip_entry_content(
            zip_entry_content(xapk@, base_name@)->0,
            "assets/settings.txt"@,
        ) == Some(encode_utf8(expected_settings@)) && zip_entry_content(
            zip_entry_content(xapk@, base_name@)->0,
            "AndroidManifest.xml"@,
        ) == Some(expected_manifest@)),
{
    let ghost bytes = xapk@;
    let mut zip = match open_zip(xapk) {
        Ok(zip) => zip,
        Err(e) => return Err(OutputError::Zip(e)),
    };
    let n = zip_len(&zip);
    let mut names: Vec<String> = Vec::new();
    let mut i: usize = 0;
    while i < n
        invariant
            i <= n,
            n == zip_count(bytes),
            zip_source(zip) == bytes,
            texts(names@) == readable_names(bytes, i as nat),
        decreases n - i,
    {
        match zip_entry_info(&mut zip, i) {
            Ok(info) => match info.name {
                Ok(name) => {
                    proof {
                        assert(texts(names@.push(name)) =~= texts(names@).push(name@));
                    }
                    names.push(name);
                },
                Err(_) => {},
            },
            Err(_) => {},
        }
        i = i + 1;
    }
    check_split_set(expected, &names)?;
    let base = output_entry(&mut zip, base_name)?;
    check_base_apk(base, expected_settings, expected_manifest)
}

} // verus!

verus! {

impl OutputError {
    /// The error, for the user; `None` for a ZIP or I/O error, which speaks
    /// for itself.
    pub fn message(&self) -> (m: Option<String>)
        ensures
            match self {
                OutputError::SplitSetMismatch => m matches Some(s) && s@
                    == "output XAPK does not contain the same APK split set as the input"@,
                OutputError::Zip(_) => m is None,
                OutputError::Io(_) => m is None,
                OutputError::SettingsMismatch => m matches Some(s) && s@
                    == "output XAPK settings verification failed"@,
                OutputError::ManifestMismatch => m matches Some(s) && s@
                    == "output XAPK manifest verification failed"@,
            },
    {
        match self {
            OutputError::SplitSetMismatch => Some(
                crate::text::string_of(
                    "output XAPK does not contain the same APK split set as the input",
                ),
            ),
            OutputError::Zip(_) => None,
            OutputError::Io(_) => None,
            OutputError::SettingsMismatch => Some(
                crate::text::string_of("output XAPK settings verification failed"),
            ),
            OutputError::ManifestMismatch => Some(
                crate::text::string_of("output XAPK manifest verification failed"),
            ),
        }
    }
}

} // verus!

verus! {

proof fn lemma_last_named(names: Seq<Seq<char>>, name: Seq<char>, k: int, i: int)
    requires
        0 <= i < k <= names.len(),
        names[i] == name,
    ensures
        last_named_before(names, name, k) matches Some(r) && 0 <= r < k && names[r] == name,
    decreases k,
{
    if names[k - 1] != name {
        lemma_last_named(names, name, k - 1, i);
    }
}

proof fn lemma_written_entry(entries: Seq<ArchiveEntry>, name: Seq<char>)
    requires
        written(entries, name),
    ensures
        exists|j: int|
            0 <= j < entries.len() && (#[trigger] entries[j]).name@ == name && !signature_entry(name)
                && !entries[j].is_dir,
    decreases entries.len(),
{
    if !(entries.last().name@ == name && !signature_entry(name) && !entries.last().is_dir) {
        lemma_written_entry(entries.drop_last(), name);
        let j = choose|j: int|
            0 <= j < entries.drop_last().len() && (#[trigger] entries.drop_last()[j]).name@ == name
                && !signature_entry(name) && !entries.drop_last()[j].is_dir;
        assert(entries[j] == entries.drop_last()[j]);
    } else {
        assert(entries[entries.len() - 1] == entries.last());
    }
}

proof fn lemma_no_unwritten(entries: Seq<ArchiveEntry>, names: Seq<Seq<char>>, m: int, k: int)
    requires
        0 <= m <= k < names.len(),
        first_unwritten_from(entries, names, m) is None,
    ensures
        written(entries, names[k]),
    decreases k - m,
{
    if m < k {
        lemma_no_unwritten(entries, names, m + 1, k);
    }
}

/// When a rewrite plan reports no missing replacement, every replacement is
/// written: some entry of the archive is replaced by a replacement of the
/// same name.
pub proof fn law_rewrite_uses_every_replacement(entries: Seq<ArchiveEntry>, names: Seq<Seq<char>>)
    requires
        names.len() <= usize::MAX,
        first_unwritten_from(entries, names, 0) is None,
    ensures
        forall|k: int|
            #![trigger names[k]]
            0 <= k < names.len() ==> exists|j: int|
                0 <= j < entries.len() && (#[trigger] action_for(entries[j], names) matches EntryAction::Replace(
                    _,
                    r,
                ) && names[r as int] == names[k]),
{
    assert forall|k: int| #![trigger names[k]] 0 <= k < names.len() implies exists|j: int|
        0 <= j < entries.len() && (#[trigger] action_for(entries[j], names) matches EntryAction::Replace(
            _,
            r,
        ) && names[r as int] == names[k]) by {
        lemma_no_unwritten(entries, names, 0, k);
        lemma_written_entry(entries, names[k]);
        let j = choose|j: int|
            0 <= j < entries.len() && (#[trigger] entries[j]).name@ == names[k] && !signature_entry(
                names[k],
            ) && !entries[j].is_dir;
        lemma_last_named(names, names[k], names.len() as int, k);
        assert(action_for(entries[j], names) matches EntryAction::Replace(_, r) && names[r as int]
            == names[k]);
    }
}

} // verus!

verus! {

/// The error type of `String::from_utf8`.
#[verifier::external_type_specification]
#[verifier::external_body]
pub struct ExFromUtf8Error(std::string::FromUtf8Error);

/// `String::from_utf8`: the text that `bytes` encode, when they are valid
/// UTF-8 (as its documentation states).
#[verifier::external_body]
fn string_from_utf8(bytes: Vec<u8>) -> (r: Result<String, std::string::FromUtf8Error>)
    ensures
        r is Ok <==> valid_utf8(bytes@),
        r matches Ok(s) ==> s@ == decode_utf8(bytes@),
{
    String::from_utf8(bytes)
}

/// What one APK split says about the settings.
#[derive(Debug)]
pub enum SplitSettings {
    /// The split has no settings file; the search goes on.
    Absent,
    /// The split's settings text; the search ends here.
    Text(String),
    /// The split's settings file is not UTF-8 text.
    NotText(std::string::FromUtf8Error),
}

/// Examines the settings file read from one split (`None` when the split
/// has none): the first split that has one decides, and its bytes must be
/// UTF-8 text.
pub fn settings_in_split(entry: Option<Vec<u8>>) -> (r: SplitSettings)
    ensures
        match entry {
            None => r matches SplitSettings::Absent,
            Some(b) => if valid_utf8(b@) {
                r matches SplitSettings::Text(t) && t@ == decode_utf8(b@)
            } else {
                r matches SplitSettings::NotText(_)
            },
        },
{
    match entry {
        None => SplitSettings::Absent,
        Some(bytes) => match string_from_utf8(bytes) {
            Ok(text) => SplitSettings::Text(text),
            Err(e) => SplitSettings::NotText(e),
        },
    }
}


/// Reads the settings file of one APK split (the ZIP archive `split`) and
/// examines it as `settings_in_split` does.
pub fn split_settings(split: Vec<u8>) -> (r: Result<SplitSettings, ArchiveError>)
    ensures
        match entry_lookup(split@, "assets/settings.txt"@) {
            None => r is Err && (r->Err_0 is Zip || r->Err_0 is Io),
            Some(None) => r matches Ok(SplitSettings::Absent),
            Some(Some(b)) => if valid_utf8(b) {
                r matches Ok(SplitSettings::Text(t)) && t@ == decode_utf8(b)
            } else {
                r matches Ok(SplitSettings::NotText(_))
            },
        },
{
    match zip_entry(split, "assets/settings.txt") {
        Ok(entry) => Ok(settings_in_split(entry)),
        Err(e) => Err(e),
    }
}

} // verus!
