use vstd::prelude::*;

use crate::errors::AppError;

verus! {

// ---------------------------------------------------------------------------
// Names for what the outside calls return.
// ---------------------------------------------------------------------------

/// What standard base64 encoding returns for the given bytes.
pub uninterp spec fn base64_string(bytes: Seq<u8>) -> Seq<char>;

/// What standard base64 decoding recovers from the given text: `None` when
/// the text is not valid base64.
pub uninterp spec fn base64_decoded(text: Seq<char>) -> Option<Seq<u8>>;

/// The entry list, name and content in written order, that the archive
/// reader recovers from the given bytes; `None` when the bytes are not a
/// fully readable archive.
pub uninterp spec fn zip_entries(bytes: Seq<u8>) -> Option<Seq<(Seq<char>, Seq<u8>)>>;

/// The entries written so far into an `ArchiveBuilder`.
pub uninterp spec fn builder_entries(b: ArchiveBuilder) -> Seq<(Seq<char>, Seq<u8>)>;

/// The entry list behind an `ArchiveReader`.
pub uninterp spec fn reader_entries(r: ArchiveReader) -> Seq<(Seq<char>, Seq<u8>)>;

/// Whether every entry behind an `ArchiveReader` is fully readable.
pub uninterp spec fn reader_sound(r: ArchiveReader) -> bool;

// ---------------------------------------------------------------------------
// Trusted wrappers around the archive and base64 crates.
// ---------------------------------------------------------------------------

/// An uncompressed (store-mode) archive being written in memory.
#[verifier::external_body]
pub struct ArchiveBuilder {
    inner: zip::ZipWriter<std::io::Cursor<Vec<u8>>>,
}

impl ArchiveBuilder {
    /// Relies on `zip::ZipWriter::new` over an in-memory cursor: a fresh
    /// archive holding no entries.
    #[verifier::external_body]
    fn new() -> (r: ArchiveBuilder)
        ensures
            builder_entries(r) == Seq::<(Seq<char>, Seq<u8>)>::empty(),
    {
        ArchiveBuilder { inner: zip::ZipWriter::new(std::io::Cursor::new(Vec::new())) }
    }

    /// Relies on `zip::ZipWriter::start_file` with store-mode options and on
    /// `std::io::Write::write_all`: on success the archive gains one entry
    /// holding exactly the given bytes under the given name. Writing to the
    /// in-memory cursor fails only where the format itself refuses the
    /// entry: a name the archive already holds, a name whose encoding
    /// overruns the format's name field, or content reaching the size
    /// threshold past which the writer demands its large-file option.
    #[verifier::external_body]
    fn add_entry(&mut self, name: &str, content: &Vec<u8>) -> (r: Result<(), AppError>)
        ensures
            r is Ok ==> builder_entries(*final(self)) == builder_entries(*old(self)).push((name@, content@)),
            r matches Err(e) ==> (e == AppError::ZipError || e == AppError::IoError)
                && (has_name(builder_entries(*old(self)), name@) || name@.len() > 16383
                    || content@.len() >= 0xFFFF_FFFF),
    {
        let opts = zip::write::SimpleFileOptions::default()
            .compression_method(zip::CompressionMethod::Stored);
        if self.inner.start_file(name, opts).is_err() {
            return Err(AppError::ZipError);
        }
        match std::io::Write::write_all(&mut self.inner, content) {
            Ok(_) => Ok(()),
            Err(_) => Err(AppError::IoError),
        }
    }

    /// Relies on `zip::ZipWriter::finish`: the result is a complete archive
    /// from which `zip::ZipArchive` recovers exactly the entries written, in
    /// order. Sealing writes only the central directory to the in-memory
    /// cursor, which cannot fail, so the call always succeeds.
    #[verifier::external_body]
    fn finish(self) -> (r: Result<Vec<u8>, AppError>)
        ensures
            r is Ok,
            r matches Ok(bytes) ==> zip_entries(bytes@) == Some(builder_entries(self)),
            r matches Err(e) ==> e == AppError::ZipError,
    {
        match self.inner.finish() {
            Ok(c) => Ok(c.into_inner()),
            Err(_) => Err(AppError::ZipError),
        }
    }
}

/// An archive opened for reading from memory.
#[verifier::external_body]
pub struct ArchiveReader {
    inner: zip::ZipArchive<std::io::Cursor<Vec<u8>>>,
}

impl ArchiveReader {
    /// Relies on `zip::ZipArchive::new` over an in-memory cursor: when the
    /// bytes form a fully readable archive, opening succeeds and exposes
    /// exactly its entries.
    #[verifier::external_body]
    fn open(bytes: Vec<u8>) -> (r: Result<ArchiveReader, AppError>)
        ensures
            r matches Ok(rd) ==> (zip_entries(bytes@) matches Some(es) ==> reader_entries(rd) == es
                && reader_sound(rd)),
            r matches Err(e) ==> e == AppError::ZipError && zip_entries(bytes@) is None,
    {
        match zip::ZipArchive::new(std::io::Cursor::new(bytes)) {
            Ok(a) => Ok(ArchiveReader { inner: a }),
            Err(_) => Err(AppError::ZipError),
        }
    }

    /// Relies on `zip::ZipArchive::len`: how many entries the archive's
    /// directory lists.
    #[verifier::external_body]
    fn count(&self) -> (n: usize)
        ensures
            n == reader_entries(*self).len(),
    {
        self.inner.len()
    }

    /// Relies on `zip::ZipArchive::by_index` and `std::io::Read::read_to_end`:
    /// on success, entry `i` as it was written — its name and its exact
    /// bytes. Reading never fails on a fully readable archive.
    #[verifier::external_body]
    fn entry_at(&mut self, i: usize) -> (r: Result<(String, Vec<u8>), AppError>)
        requires
            i < reader_entries(*old(self)).len(),
        ensures
            reader_entries(*final(self)) == reader_entries(*old(self)),
            reader_sound(*final(self)) == reader_sound(*old(self)),
            r matches Ok(e) ==> (e.0@, e.1@) == reader_entries(*old(self))[i as int],
            r matches Err(e) ==> e == AppError::ZipError && !reader_sound(*old(self)),
    {
        let mut file = match self.inner.by_index(i) {
            Ok(f) => f,
            Err(_) => return Err(AppError::ZipError),
        };
        let name = file.name().to_string();
        let mut content = Vec::new();
        match std::io::Read::read_to_end(&mut file, &mut content) {
            Ok(_) => Ok((name, content)),
            Err(_) => Err(AppError::ZipError),
        }
    }
}

/// Relies on `base64::engine::general_purpose::STANDARD.encode`: the
/// standard base64 text of the bytes, which decoding recovers exactly.
#[verifier::external_body]
fn b64_encode(bytes: &Vec<u8>) -> (r: String)
    ensures
        r@ == base64_string(bytes@),
        base64_decoded(r@) == Some(bytes@),
{
    base64::Engine::encode(&base64::engine::general_purpose::STANDARD, bytes)
}

/// Relies on `base64::engine::general_purpose::STANDARD.decode`: the bytes
/// the text encodes, or an error where the text is not valid base64.
#[verifier::external_body]
fn b64_decode(text: &str) -> (r: Result<Vec<u8>, AppError>)
    ensures
        r matches Ok(b) ==> base64_decoded(text@) == Some(b@),
        r matches Err(e) ==> base64_decoded(text@) is None && e == AppError::DecodeError,
{
    match base64::Engine::decode(&base64::engine::general_purpose::STANDARD, text) {
        Ok(b) => Ok(b),
        Err(_) => Err(AppError::DecodeError),
    }
}

// ---------------------------------------------------------------------------
// The file set and its mathematical model.
// ---------------------------------------------------------------------------

/// Whether no two entries of the list share a name.
pub open spec fn unique_names(es: Seq<(Seq<char>, Seq<u8>)>) -> bool {
    forall|p: int, q: int| 0 <= p < q < es.len() ==> (#[trigger] es[p]).0 != (#[trigger] es[q]).0
}

/// Whether some entry of the list carries the given name.
pub open spec fn has_name(es: Seq<(Seq<char>, Seq<u8>)>, name: Seq<char>) -> bool {
    exists|k: int| 0 <= k < es.len() && (#[trigger] es[k]).0 == name
}

/// The name-to-content mapping an entry list describes; a later entry wins
/// over an earlier one of the same name.
pub open spec fn map_of_entries(es: Seq<(Seq<char>, Seq<u8>)>) -> Map<Seq<char>, Seq<u8>>
    decreases es.len(),
{
    if es.len() == 0 {
        Map::empty()
    } else {
        map_of_entries(es.drop_last()).insert(es.last().0, es.last().1)
    }
}

/// The entry list a payload string holds: base64 text of an archive whose
/// entries are the files by name. `None` where the text or the archive is
/// ill-formed.
pub open spec fn payload_entries(text: Seq<char>) -> Option<Seq<(Seq<char>, Seq<u8>)>> {
    match base64_decoded(text) {
        Some(bytes) => zip_entries(bytes),
        None => None,
    }
}

/// Whether every file of the mapping sits within the archive format's
/// plain limits: a name of at most 16383 characters (so its encoding fits
/// the format's 65535-byte name field whatever the characters), and
/// content below the four-gibibyte threshold past which the store-mode
/// writer demands its large-file option. Inside these limits packaging is
/// deterministic and owed to succeed.
pub open spec fn within_archive_limits(m: Map<Seq<char>, Seq<u8>>) -> bool {
    forall|n: Seq<char>| #[trigger] m.contains_key(n) ==> n.len() <= 16383 && m[n].len() < 0xFFFF_FFFF
}

/// The name-to-content mapping a payload string holds.
pub open spec fn payload_map(text: Seq<char>) -> Option<Map<Seq<char>, Seq<u8>>> {
    match payload_entries(text) {
        Some(es) => Some(map_of_entries(es)),
        None => None,
    }
}

/// What an entry list's mapping contains: exactly the listed names, each
/// one — when names are unique — bound to its listed content; the mapping
/// therefore does not depend on the order the entries stand in.
pub proof fn lemma_map_of_entries(es: Seq<(Seq<char>, Seq<u8>)>)
    ensures
        map_of_entries(es).dom().finite(),
        forall|name: Seq<char>| #[trigger] map_of_entries(es).contains_key(name) <==> has_name(es, name),
        unique_names(es) ==> forall|k: int| 0 <= k < es.len() ==> map_of_entries(es)[(#[trigger] es[k]).0] == es[k].1,
        unique_names(es) ==> map_of_entries(es).dom().len() == es.len(),
    decreases es.len(),
{
    broadcast use vstd::set::group_set_axioms;

    if es.len() == 0 {
    } else {
        let prefix = es.drop_last();
        lemma_map_of_entries(prefix);
        assert forall|name: Seq<char>| #[trigger] map_of_entries(es).contains_key(name) implies has_name(es, name) by {
            if name == es.last().0 {
                assert((#[trigger] es[es.len() - 1]).0 == name);
            } else {
                let k = choose|k: int| 0 <= k < prefix.len() && (#[trigger] prefix[k]).0 == name;
                assert((#[trigger] es[k]).0 == name);
            }
        }
        assert forall|name: Seq<char>| has_name(es, name) implies #[trigger] map_of_entries(es).contains_key(name) by {
            let k = choose|k: int| 0 <= k < es.len() && (#[trigger] es[k]).0 == name;
            if k < es.len() - 1 {
                assert((#[trigger] prefix[k]).0 == name);
            }
        }
        if unique_names(es) {
            assert(unique_names(prefix));
            assert forall|k: int| 0 <= k < es.len() implies map_of_entries(es)[(#[trigger] es[k]).0] == es[k].1 by {
                if k < es.len() - 1 {
                    assert(es[k].0 != es[es.len() - 1].0);
                    assert((#[trigger] prefix[k]).0 == es[k].0);
                }
            }
            assert(!has_name(prefix, es.last().0)) by {
                if has_name(prefix, es.last().0) {
                    let k = choose|k: int| 0 <= k < prefix.len() && (#[trigger] prefix[k]).0 == es.last().0;
                    assert((#[trigger] es[k]).0 == es[es.len() - 1].0);
                }
            }
            assert(!map_of_entries(prefix).contains_key(es.last().0));
            vstd::set::axiom_set_insert_len(map_of_entries(prefix).dom(), es.last().0);
            assert(map_of_entries(es).dom() =~= map_of_entries(prefix).dom().insert(es.last().0));
        }
    }
}

/// Whether the list holds the given entry, name and content both.
pub open spec fn has_entry(es: Seq<(Seq<char>, Seq<u8>)>, e: (Seq<char>, Seq<u8>)) -> bool {
    exists|k: int| 0 <= k < es.len() && es[k] == e
}

/// The described mapping depends only on which entries are present, never
/// on the order they stand in: two uniquely-named entry lists holding the
/// same entries describe the same mapping.
pub proof fn lemma_map_order_irrelevant(es1: Seq<(Seq<char>, Seq<u8>)>, es2: Seq<(Seq<char>, Seq<u8>)>)
    requires
        unique_names(es1),
        unique_names(es2),
        forall|e: (Seq<char>, Seq<u8>)| has_entry(es1, e) <==> has_entry(es2, e),
    ensures
        map_of_entries(es1) == map_of_entries(es2),
{
    lemma_map_of_entries(es1);
    lemma_map_of_entries(es2);
    assert forall|n: Seq<char>| #[trigger] map_of_entries(es1).contains_key(n) implies
        map_of_entries(es2).contains_key(n) && map_of_entries(es2)[n] == map_of_entries(es1)[n] by {
        let k = choose|k: int| 0 <= k < es1.len() && (#[trigger] es1[k]).0 == n;
        let e = es1[k];
        assert(has_entry(es1, e));
        assert(has_entry(es2, e));
        let j = choose|j: int| 0 <= j < es2.len() && es2[j] == e;
        assert((#[trigger] es2[j]).0 == n);
        assert(map_of_entries(es1)[(es1[k]).0] == es1[k].1);
        assert(map_of_entries(es2)[(es2[j]).0] == es2[j].1);
    }
    assert forall|n: Seq<char>| #[trigger] map_of_entries(es2).contains_key(n) implies
        map_of_entries(es1).contains_key(n) by {
        let j = choose|j: int| 0 <= j < es2.len() && (#[trigger] es2[j]).0 == n;
        let e = es2[j];
        assert(has_entry(es2, e));
        assert(has_entry(es1, e));
        let k = choose|k: int| 0 <= k < es1.len() && es1[k] == e;
        assert((#[trigger] es1[k]).0 == n);
    }
    assert(map_of_entries(es1) =~= map_of_entries(es2));
}

/// A mapping from file name to file content, each name present at most
/// once. This is the submission's file set as the packager consumes it.
pub struct FileSet {
    entries: Vec<(String, Vec<u8>)>,
}

impl FileSet {
    /// The entries as mathematical values, in insertion order.
    pub closed spec fn entry_views(&self) -> Seq<(Seq<char>, Seq<u8>)> {
        Seq::new(self.entries@.len(), |k: int| (self.entries@[k].0@, self.entries@[k].1@))
    }

    /// Well-formed: no two entries share a name.
    pub open spec fn wf(&self) -> bool {
        unique_names(self.entry_views())
    }
}

impl View for FileSet {
    type V = Map<Seq<char>, Seq<u8>>;

    open spec fn view(&self) -> Map<Seq<char>, Seq<u8>> {
        map_of_entries(self.entry_views())
    }
}

impl FileSet {
    /// An empty file set.
    pub fn new() -> (r: FileSet)
        ensures
            r.wf(),
            r@ == Map::<Seq<char>, Seq<u8>>::empty(),
            r.entry_views() == Seq::<(Seq<char>, Seq<u8>)>::empty(),
    {
        let r = FileSet { entries: Vec::new() };
        proof {
            assert(r.entry_views() =~= Seq::<(Seq<char>, Seq<u8>)>::empty());
        }
        r
    }

    /// How many files the set holds.
    pub fn len(&self) -> (n: usize)
        requires
            self.wf(),
        ensures
            n == self@.dom().len(),
    {
        proof {
            lemma_map_of_entries(self.entry_views());
        }
        self.entries.len()
    }

    /// Whether the set holds a file of the given name.
    pub fn contains(&self, name: &str) -> (r: bool)
        ensures
            r == self@.contains_key(name@),
    {
        proof {
            lemma_map_of_entries(self.entry_views());
        }
        let n = self.entries.len();
        let mut i: usize = 0;
        while i < n
            invariant
                i <= n,
                n == self.entries@.len(),
                forall|k: int| 0 <= k < i ==> (#[trigger] self.entry_views()[k]).0 != name@,
            decreases n - i,
        {
            if crate::str_eq(self.entries[i].0.as_str(), name) {
                proof {
                    lemma_map_of_entries(self.entry_views());
                    assert((#[trigger] self.entry_views()[i as int]).0 == name@);
                    assert(has_name(self.entry_views(), name@));
                }
                return true;
            }
            i = i + 1;
        }
        proof {
            assert(!has_name(self.entry_views(), name@)) by {
                if has_name(self.entry_views(), name@) {
                    let k = choose|k: int| 0 <= k < self.entry_views().len()
                        && (#[trigger] self.entry_views()[k]).0 == name@;
                }
            }
        }
        false
    }

    /// Adds a file. Where the name is new the mapping gains it and the call
    /// returns true; where a file of that name is already present the set is
    /// left as it was and the call returns false.
    pub fn insert(&mut self, name: String, content: Vec<u8>) -> (added: bool)
        requires
            old(self).wf(),
        ensures
            final(self).wf(),
            added ==> !old(self)@.contains_key(name@) && final(self)@ == old(self)@.insert(name@, content@)
                && final(self).entry_views() == old(self).entry_views().push((name@, content@)),
            !added ==> old(self)@.contains_key(name@) && *final(self) == *old(self),
    {
        if self.contains(name.as_str()) {
            return false;
        }
        proof {
            lemma_map_of_entries(old(self).entry_views());
        }
        self.entries.push((name, content));
        proof {
            let prev = old(self).entry_views();
            let ghost pushed = prev.push((name@, content@));
            assert(self.entry_views() =~= pushed);
            assert(pushed.drop_last() =~= prev);
            assert forall|p: int, q: int| 0 <= p < q < pushed.len() implies (#[trigger] pushed[p]).0 != (#[trigger] pushed[q]).0 by {
                if q == pushed.len() - 1 {
                    assert(!has_name(prev, name@));
                    assert((#[trigger] prev[p]).0 == pushed[p].0);
                }
            }
        }
        true
    }

    /// The content of the file of the given name, where the set holds one.
    pub fn get(&self, name: &str) -> (r: Option<&Vec<u8>>)
        requires
            self.wf(),
        ensures
            match r {
                Some(c) => self@.contains_key(name@) && c@ == self@[name@],
                None => !self@.contains_key(name@),
            },
    {
        proof {
            lemma_map_of_entries(self.entry_views());
        }
        let n = self.entries.len();
        let mut i: usize = 0;
        while i < n
            invariant
                i <= n,
                n == self.entries@.len(),
                self.wf(),
                forall|k: int| 0 <= k < i ==> (#[trigger] self.entry_views()[k]).0 != name@,
            decreases n - i,
        {
            if crate::str_eq(self.entries[i].0.as_str(), name) {
                proof {
                    lemma_map_of_entries(self.entry_views());
                    assert((#[trigger] self.entry_views()[i as int]).0 == name@);
                    assert(has_name(self.entry_views(), name@));
                    assert(self@[name@] == self.entry_views()[i as int].1);
                }
                return Some(&self.entries[i].1);
            }
            i = i + 1;
        }
        proof {
            assert(!has_name(self.entry_views(), name@)) by {
                if has_name(self.entry_views(), name@) {
                    let k = choose|k: int| 0 <= k < self.entry_views().len()
                        && (#[trigger] self.entry_views()[k]).0 == name@;
                }
            }
        }
        None
    }
}

// ---------------------------------------------------------------------------
// Packing and unpacking.
// ---------------------------------------------------------------------------

/// Packs a file set into a store-mode archive and encodes the archive as
/// base64 text: the payload, decoded and unzipped, holds exactly the input
/// mapping. On any file set within the format's plain limits — the empty
/// set among them — packing succeeds; a failure while writing an entry
/// aborts the whole operation, and no partial payload is ever returned.
pub fn pack_archive(files: &FileSet) -> (r: Result<String, AppError>)
    requires
        files.wf(),
    ensures
        r matches Ok(text) ==> payload_entries(text@) == Some(files.entry_views())
            && payload_map(text@) == Some(files@),
        r matches Err(e) ==> e == AppError::ZipError || e == AppError::IoError,
        within_archive_limits(files@) ==> r is Ok,
        files@ == Map::<Seq<char>, Seq<u8>>::empty() ==> r is Ok,
{
    let mut builder = ArchiveBuilder::new();
    let n = files.entries.len();
    let mut i: usize = 0;
    while i < n
        invariant
            i <= n,
            n == files.entries@.len(),
            files.wf(),
            builder_entries(builder) == files.entry_views().take(i as int),
        decreases n - i,
    {
        let entry = &files.entries[i];
        match builder.add_entry(entry.0.as_str(), &entry.1) {
            Ok(_) => {},
            Err(e) => {
                proof {
                    lemma_not_within_limits(files, i as int);
                }
                return Err(e);
            },
        }
        proof {
            let views = files.entry_views();
            assert(views.take(i + 1 as int) =~= views.take(i as int).push(views[i as int]));
        }
        i = i + 1;
    }
    proof {
        assert(files.entry_views().take(n as int) =~= files.entry_views());
    }
    let bytes = match builder.finish() {
        Ok(b) => b,
        Err(e) => {
            return Err(e);
        },
    };
    let text = b64_encode(&bytes);
    Ok(text)
}

/// Where writing entry `i` of a well-formed file set was refused — a
/// duplicate among the first `i` names, an oversized name, or oversized
/// content — the set as a whole stands outside the plain limits; in
/// particular it is not empty.
proof fn lemma_not_within_limits(files: &FileSet, i: int)
    requires
        files.wf(),
        0 <= i < files.entry_views().len(),
        has_name(files.entry_views().take(i), files.entry_views()[i].0)
            || files.entry_views()[i].0.len() > 16383
            || files.entry_views()[i].1.len() >= 0xFFFF_FFFF,
    ensures
        !within_archive_limits(files@),
        files@ != Map::<Seq<char>, Seq<u8>>::empty(),
{
    let es = files.entry_views();
    lemma_map_of_entries(es);
    if has_name(es.take(i), es[i].0) {
        let p = choose|k: int| 0 <= k < es.take(i).len() && (#[trigger] es.take(i)[k]).0 == es[i].0;
        assert((#[trigger] es[p]).0 == (#[trigger] es[i]).0);
        assert(false);
    }
    assert((#[trigger] es[i]).0 == es[i].0);
    assert(has_name(es, es[i].0));
    assert(files@.contains_key(es[i].0));
    assert(files@[es[i].0] == es[i].1);
}

/// Decodes and unzips a payload back into a file set. On any payload that
/// packing produced from a well-formed file set this succeeds and returns
/// exactly the packed mapping.
pub fn unpack_archive(text: &str) -> (r: Result<FileSet, AppError>)
    ensures
        (match payload_entries(text@) {
            Some(es) => unique_names(es) ==> (r matches Ok(files) && files@ == map_of_entries(es)),
            None => true,
        }),
        r matches Ok(files) ==> files.wf(),
{
    let bytes = match b64_decode(text) {
        Ok(b) => b,
        Err(e) => {
            return Err(e);
        },
    };
    let mut reader = match ArchiveReader::open(bytes) {
        Ok(rd) => rd,
        Err(e) => {
            return Err(e);
        },
    };
    let ghost es0 = reader_entries(reader);
    let ghost sound0 = reader_sound(reader);
    let n = reader.count();
    let mut files = FileSet::new();
    let mut i: usize = 0;
    while i < n
        invariant
            i <= n,
            n == es0.len(),
            reader_entries(reader) == es0,
            reader_sound(reader) == sound0,
            files.wf(),
            unique_names(es0.take(i as int)),
            files@ == map_of_entries(es0.take(i as int)),
            files.entry_views() == es0.take(i as int),
            (match payload_entries(text@) {
                Some(es) => es0 == es && sound0,
                None => true,
            }),
        decreases n - i,
    {
        let entry = match reader.entry_at(i) {
            Ok(e) => e,
            Err(e) => {
                return Err(e);
            },
        };
        let added = files.insert(entry.0, entry.1);
        if !added {
            proof {
                lemma_map_of_entries(es0.take(i as int));
                let name = es0[i as int].0;
                assert(has_name(es0.take(i as int), name));
                let p = choose|k: int| 0 <= k < es0.take(i as int).len()
                    && (#[trigger] es0.take(i as int)[k]).0 == name;
                assert((#[trigger] es0[p]).0 == (#[trigger] es0[i as int]).0);
                assert(!unique_names(es0));
            }
            return Err(AppError::ZipError);
        }
        proof {
            let t = es0.take(i + 1 as int);
            assert(t =~= es0.take(i as int).push(es0[i as int]));
            assert(t.drop_last() =~= es0.take(i as int));
            lemma_map_of_entries(es0.take(i as int));
            assert(unique_names(t)) by {
                assert forall|p: int, q: int| 0 <= p < q < t.len() implies (#[trigger] t[p]).0 != (#[trigger] t[q]).0 by {
                    if q == t.len() - 1 {
                        assert(!map_of_entries(es0.take(i as int)).contains_key(es0[i as int].0));
                        assert(!has_name(es0.take(i as int), es0[i as int].0));
                        assert((#[trigger] es0.take(i as int)[p]).0 == t[p].0);
                    }
                }
            }
        }
        i = i + 1;
    }
    proof {
        assert(es0.take(n as int) =~= es0);
    }
    Ok(files)
}

/// Round-trip fidelity: a payload whose decoded archive lists uniquely
/// named entries describes, by name, exactly those entries — every name
/// present exactly once, bound to its byte-identical content — and the
/// described mapping does not depend on the order the entries were written
/// in, only on which name carries which bytes.
pub proof fn lemma_round_trip_fidelity(text: Seq<char>, es: Seq<(Seq<char>, Seq<u8>)>)
    requires
        payload_entries(text) == Some(es),
        unique_names(es),
    ensures
        payload_map(text) == Some(map_of_entries(es)),
        forall|k: int| 0 <= k < es.len() ==> map_of_entries(es)[(#[trigger] es[k]).0] == es[k].1,
        forall|name: Seq<char>| #[trigger] map_of_entries(es).contains_key(name) <==> has_name(es, name),
        map_of_entries(es).dom().len() == es.len(),
{
    lemma_map_of_entries(es);
}

} // verus!
