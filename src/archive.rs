//! Texture archives (WAD3): the directory of one archive, and a catalog that
//! merges the directories of several archives by case-insensitive name.
use vstd::prelude::*;
use crate::bytes::{bytes_eq, copy_range, is_lower, lower, name_key, to_lower, to_name_key, u32_le};

verus! {

/// Size in bytes of an archive header.
pub const WAD_HEADER_SIZE: usize = 12;

/// Size in bytes of one record of an archive's directory.
pub const WAD_RECORD_SIZE: usize = 32;

/// One record of an archive's directory, as stored.
pub struct WadRecord {
    pub offset: u32,
    pub disk_size: u32,
    pub size: u32,
    pub kind: u8,
    pub compression: u8,
    /// The raw fixed-width name field.
    pub name: Vec<u8>,
}

/// Number of records that the header of `b` declares.
pub open spec fn wad_count(b: Seq<u8>) -> int {
    u32_le(b, 4)
}

/// Offset of the directory that the header of `b` declares.
pub open spec fn wad_dir_offset(b: Seq<u8>) -> int {
    u32_le(b, 8)
}

/// `b` starts with a WAD3 header whose directory lies within `b`.
pub open spec fn wad_valid(b: Seq<u8>) -> bool {
    &&& b.len() >= WAD_HEADER_SIZE
    &&& b[0] == 87 && b[1] == 65 && b[2] == 68 && b[3] == 51
    &&& (wad_count(b) == 0 || wad_dir_offset(b) + WAD_RECORD_SIZE * wad_count(b) <= b.len())
}

/// `r` holds the directory record stored at byte `at` of `b`.
pub open spec fn record_at(b: Seq<u8>, at: int, r: WadRecord) -> bool {
    &&& r.offset as int == u32_le(b, at)
    &&& r.disk_size as int == u32_le(b, at + 4)
    &&& r.size as int == u32_le(b, at + 8)
    &&& r.kind == b[at + 12]
    &&& r.compression == b[at + 13]
    &&& r.name@ == b.subrange(at + 16, at + 32)
}

/// `rs` is the directory of the archive `b`, in stored order.
pub open spec fn directory_of(b: Seq<u8>, rs: Seq<WadRecord>) -> bool {
    &&& rs.len() == wad_count(b)
    &&& forall|i: int|
        0 <= i < rs.len() ==> #[trigger] record_at(b, wad_dir_offset(b) + WAD_RECORD_SIZE * i, rs[i])
}

/// The normalised name of record `i` of the archive `b`.
pub open spec fn dir_name(b: Seq<u8>, i: int) -> Seq<u8> {
    let at = wad_dir_offset(b) + WAD_RECORD_SIZE * i;
    name_key(b.subrange(at + 16, at + 32))
}

/// Some record of the archive `b` has the normalised name `n`.
pub open spec fn holds_name(b: Seq<u8>, n: Seq<u8>) -> bool {
    exists|i: int| 0 <= i < wad_count(b) && #[trigger] dir_name(b, i) == n
}

proof fn lemma_last_named_none(rs: Seq<WadRecord>, n: Seq<u8>)
    ensures
        last_named(rs, n) is None <==> forall|i: int| 0 <= i < rs.len() ==> name_key((#[trigger] rs[i]).name@) != n,
    decreases rs.len(),
{
    if rs.len() > 0 {
        lemma_last_named_none(rs.drop_last(), n);
        assert forall|i: int| 0 <= i < rs.len() - 1 implies #[trigger] rs.drop_last()[i] == rs[i] by {}
        if last_named(rs, n) is None {
            assert forall|i: int| 0 <= i < rs.len() implies name_key((#[trigger] rs[i]).name@) != n by {
                if i < rs.len() - 1 {
                    assert(rs.drop_last()[i] == rs[i]);
                }
            }
        } else if name_key(rs.last().name@) != n {
            let i = choose|i: int| 0 <= i < rs.drop_last().len() && name_key((#[trigger] rs.drop_last()[i]).name@) == n;
            assert(rs.drop_last()[i] == rs[i]);
        }
    }
}

proof fn lemma_holds_name(b: Seq<u8>, rs: Seq<WadRecord>, n: Seq<u8>)
    requires
        directory_of(b, rs),
    ensures
        last_named(rs, n) is None <==> !holds_name(b, n),
{
    lemma_last_named_none(rs, n);
    assert forall|i: int| 0 <= i < rs.len() implies name_key((#[trigger] rs[i]).name@) == dir_name(b, i) by {
        assert(record_at(b, wad_dir_offset(b) + WAD_RECORD_SIZE * i, rs[i]));
    }
    if holds_name(b, n) {
        let i = choose|i: int| 0 <= i < wad_count(b) && #[trigger] dir_name(b, i) == n;
        assert(name_key(rs[i].name@) == n);
    }
}

/// Relies on goldsrc_rs::wad::wad: it checks the header's magic and the
/// directory's bounds and returns the directory's records in stored order.
#[verifier::external_body]
fn wad_directory(bytes: &[u8]) -> (r: Result<Vec<WadRecord>, goldsrc_rs::error::ParsingError>)
    ensures
        r is Ok <==> wad_valid(bytes@),
        r matches Ok(rs) ==> directory_of(bytes@, rs@),
{
    goldsrc_rs::wad::wad(bytes).map(|w| w.entries.iter().map(|e| WadRecord {
        offset: e.offset.get(),
        disk_size: e.disk_size.get(),
        size: e.size.get(),
        kind: e.ty,
        compression: e.compression,
        name: e.name.to_vec(),
    }).collect())
}

/// Why an archive could not be read.
#[derive(Debug, PartialEq, Eq, Structural)]
pub enum ArchiveError {
    /// The bytes are not a WAD3 archive, or its directory lies outside them.
    Malformed,
}

/// An entry of the catalog.
pub struct ArchiveEntry {
    /// Lowercased name.
    pub name: Vec<u8>,
    /// Position of the archive that holds it, in the order archives were added.
    pub archive: usize,
    pub offset: u32,
    pub disk_size: u32,
    pub size: u32,
    pub kind: u8,
    pub compression: u8,
}

/// The catalog entry that record `r` of archive number `a` gives.
pub open spec fn entry_of(r: WadRecord, a: int, e: ArchiveEntry) -> bool {
    &&& e.name@ == name_key(r.name@)
    &&& e.archive == a
    &&& e.offset == r.offset
    &&& e.disk_size == r.disk_size
    &&& e.size == r.size
    &&& e.kind == r.kind
    &&& e.compression == r.compression
}

/// The last entry of `s` named `n`, if any.
pub open spec fn lookup(s: Seq<ArchiveEntry>, n: Seq<u8>) -> Option<ArchiveEntry>
    decreases s.len(),
{
    if s.len() == 0 {
        None
    } else if s.last().name@ == n {
        Some(s.last())
    } else {
        lookup(s.drop_last(), n)
    }
}

/// The last record of `rs` whose normalised name is `n`, if any.
pub open spec fn last_named(rs: Seq<WadRecord>, n: Seq<u8>) -> Option<WadRecord>
    decreases rs.len(),
{
    if rs.len() == 0 {
        None
    } else if name_key(rs.last().name@) == n {
        Some(rs.last())
    } else {
        last_named(rs.drop_last(), n)
    }
}

/// A merged, case-insensitive index over the entries of several archives.
pub struct ArchiveCatalog {
    archives: Vec<Vec<u8>>,
    entries: Vec<ArchiveEntry>,
}

impl ArchiveCatalog {
    /// The archives' bytes, in the order they were added.
    pub closed spec fn archives(&self) -> Seq<Seq<u8>> {
        self.archives@.map_values(|a: Vec<u8>| a@)
    }

    /// The entries, one per name.
    pub closed spec fn entries(&self) -> Seq<ArchiveEntry> {
        self.entries@
    }

    /// Every name is lowercase and held once, and every entry refers to an
    /// archive of the catalog.
    pub open spec fn wf(&self) -> bool {
        &&& forall|i: int| 0 <= i < self.entries().len() ==> is_lower(#[trigger] self.entries()[i].name@)
        &&& forall|i: int, j: int|
            0 <= i < j < self.entries().len() ==> #[trigger] self.entries()[i].name@ != #[trigger] self.entries()[j].name@
        &&& forall|i: int| 0 <= i < self.entries().len() ==> #[trigger] self.entries()[i].archive < self.archives().len()
    }

    /// The entry named `n` (lowercase), if any.
    pub open spec fn entry(&self, n: Seq<u8>) -> Option<ArchiveEntry> {
        lookup(self.entries(), n)
    }

    /// An empty catalog.
    pub fn new() -> (r: Self)
        ensures
            r.wf(),
            r.archives().len() == 0,
            r.entries().len() == 0,
    {
        ArchiveCatalog { archives: Vec::new(), entries: Vec::new() }
    }

    /// Number of distinct names.
    pub fn len(&self) -> (r: usize)
        ensures
            r == self.entries().len(),
    {
        self.entries.len()
    }

    /// Number of archives added.
    pub fn archive_count(&self) -> (r: usize)
        ensures
            r == self.archives().len(),
    {
        self.archives.len()
    }

    /// Adds `e`, replacing the entry of the same name if there is one.
    fn upsert(&mut self, e: ArchiveEntry)
        requires
            old(self).wf(),
            is_lower(e.name@),
            e.archive < old(self).archives().len(),
        ensures
            final(self).wf(),
            final(self).archives() == old(self).archives(),
            forall|n: Seq<u8>| #[trigger] final(self).entry(n) == if n == e.name@ { Some(e) } else { old(self).entry(n) },
            final(self).entries().len() <= old(self).entries().len() + 1,
    {
        let ghost olds = self.entries@;
        let mut kept: Vec<ArchiveEntry> = Vec::new();
        let ghost mut from: Seq<int> = Seq::empty();
        let mut rest: Vec<ArchiveEntry> = Vec::new();
        core::mem::swap(&mut rest, &mut self.entries);
        let mut i: usize = 0;
        let len = rest.len();
        while i < len
            invariant
                len == olds.len(),
                i <= len,
                rest@.len() == len - i,
                rest@ == olds.skip(i as int),
                forall|k: int| 0 <= k < kept@.len() ==> #[trigger] kept@[k].name@ != e.name@,
                forall|k: int| 0 <= k < kept@.len() ==> is_lower(#[trigger] kept@[k].name@),
                forall|k: int| 0 <= k < kept@.len() ==> #[trigger] kept@[k].archive < self.archives().len(),
                forall|k: int, j: int| 0 <= k < j < kept@.len() ==> #[trigger] kept@[k].name@ != #[trigger] kept@[j].name@,
                forall|k: int| 0 <= k < kept@.len() ==> exists|j: int| 0 <= j < i && olds[j].name@ == #[trigger] kept@[k].name@,
                forall|n: Seq<u8>| n != e.name@ ==> lookup(kept@, n) == lookup(#[trigger] olds.take(i as int), n),
                forall|k: int| 0 <= k < olds.len() ==> is_lower(#[trigger] olds[k].name@),
                forall|k: int| 0 <= k < olds.len() ==> #[trigger] olds[k].archive < self.archives().len(),
                forall|k: int, j: int| 0 <= k < j < olds.len() ==> #[trigger] olds[k].name@ != #[trigger] olds[j].name@,
                kept@.len() <= i,
            decreases len - i,
        {
            let x = rest.remove(0);
            proof {
                assert(x == olds[i as int]);
                assert(olds.take(i + 1).drop_last() =~= olds.take(i as int));
                assert(olds.take(i + 1).last() == olds[i as int]);
            }
            if bytes_eq(&x.name, &e.name) {
                proof {
                    assert forall|n: Seq<u8>| n != e.name@ implies lookup(kept@, n) == lookup(#[trigger] olds.take(i + 1), n) by {
                        assert(lookup(olds.take(i + 1), n) == lookup(olds.take(i as int), n));
                    }
                }
            } else {
                proof {
                    assert forall|k: int| 0 <= k < kept@.len() implies #[trigger] kept@[k].name@ != x.name@ by {
                        let j = choose|j: int| 0 <= j < i && olds[j].name@ == kept@[k].name@;
                        assert(olds[j].name@ != olds[i as int].name@);
                    }
                }
                let ghost before = kept@;
                kept.push(x);
                proof {
                    assert(kept@.drop_last() =~= before);
                    assert forall|n: Seq<u8>| n != e.name@ implies lookup(kept@, n) == lookup(#[trigger] olds.take(i + 1), n) by {
                        assert(lookup(olds.take(i + 1), n) == if x.name@ == n { Some(x) } else { lookup(olds.take(i as int), n) });
                        assert(lookup(kept@, n) == if x.name@ == n { Some(x) } else { lookup(before, n) });
                    }
                    assert forall|k: int| 0 <= k < kept@.len() implies exists|j: int| 0 <= j < i + 1 && olds[j].name@ == #[trigger] kept@[k].name@ by {
                        if k == kept@.len() - 1 {
                            assert(olds[i as int].name@ == kept@[k].name@);
                        } else {
                            assert(kept@[k] == before[k]);
                        }
                    }
                }
            }
            i += 1;
        }
        proof {
            assert(olds.take(len as int) =~= olds);
        }
        let ghost before = kept@;
        let ghost ev = e;
        kept.push(e);
        self.entries = kept;
        proof {
            assert(kept@.drop_last() =~= before);
            assert forall|n: Seq<u8>| #[trigger] self.entry(n) == if n == ev.name@ { Some(ev) } else { lookup(olds, n) } by {
                assert(lookup(kept@, n) == if ev.name@ == n { Some(ev) } else { lookup(before, n) });
            }
        }
    }

    /// Adds the archive `bytes` and merges its directory into the catalog:
    /// a record whose name the catalog holds replaces that entry, and of two
    /// records of one archive with the same name the later one wins. On error
    /// the catalog is left as it was.
    pub fn add_archive(&mut self, bytes: Vec<u8>) -> (r: Result<usize, ArchiveError>)
        requires
            old(self).wf(),
        ensures
            final(self).wf(),
            r is Err <==> !wad_valid(bytes@),
            r is Err ==> *final(self) == *old(self),
            r is Ok ==> final(self).archives() == old(self).archives().push(bytes@),
            r is Ok ==> forall|n: Seq<u8>| !holds_name(bytes@, n) ==> #[trigger] final(self).entry(n) == old(self).entry(n),
            r is Ok ==> forall|n: Seq<u8>| holds_name(bytes@, n) ==> (#[trigger] final(self).entry(n) matches Some(e) && e.archive == old(self).archives().len()),
            r matches Ok(c) ==> exists|rs: Seq<WadRecord>| {
                &&& directory_of(bytes@, rs)
                &&& c == rs.len()
                &&& final(self).entries().len() <= old(self).entries().len() + rs.len()
                &&& forall|n: Seq<u8>| #[trigger] final(self).entry(n) == old(self).entry(n) || (last_named(rs, n) matches Some(w) && final(self).entry(n) matches Some(e) && entry_of(w, old(self).archives().len() as int, e))
                &&& forall|n: Seq<u8>| #[trigger] last_named(rs, n) is None ==> final(self).entry(n) == old(self).entry(n)
                &&& forall|n: Seq<u8>| #[trigger] last_named(rs, n) matches Some(w) ==> (final(self).entry(n) matches Some(e) && entry_of(w, old(self).archives().len() as int, e))
            },
    {
        let recs = match wad_directory(&bytes) {
            Ok(rs) => rs,
            Err(_) => return Err(ArchiveError::Malformed),
        };
        let ghost olds = *self;
        let ghost bview = bytes@;
        let idx = self.archives.len();
        self.archives.push(bytes);
        proof {
            assert(self.archives() =~= olds.archives().push(bview));
        }
        let mut i: usize = 0;
        while i < recs.len()
            invariant
                i <= recs@.len(),
                self.wf(),
                self.archives() == olds.archives().push(bview),
                idx == olds.archives().len(),
                self.entries().len() <= olds.entries().len() + i,
                forall|n: Seq<u8>| #[trigger] last_named(recs@.take(i as int), n) is None ==> self.entry(n) == olds.entry(n),
                forall|n: Seq<u8>| #[trigger] last_named(recs@.take(i as int), n) matches Some(w) ==> (self.entry(n) matches Some(e) && entry_of(w, idx as int, e)),
            decreases recs@.len() - i,
        {
            let r = &recs[i];
            let e = ArchiveEntry {
                name: to_name_key(&r.name),
                archive: idx,
                offset: r.offset,
                disk_size: r.disk_size,
                size: r.size,
                kind: r.kind,
                compression: r.compression,
            };
            let ghost prev = *self;
            let ghost en = e.name@;
            self.upsert(e);
            proof {
                let t = recs@.take(i + 1);
                assert(t.drop_last() =~= recs@.take(i as int));
                assert(t.last() == recs@[i as int]);
                assert(en == name_key(recs@[i as int].name@));
                assert forall|n: Seq<u8>| #[trigger] last_named(t, n) is None implies self.entry(n) == olds.entry(n) by {
                    assert(last_named(t, n) == if name_key(recs@[i as int].name@) == n { Some(recs@[i as int]) } else { last_named(recs@.take(i as int), n) });
                    assert(n != en);
                    assert(self.entry(n) == prev.entry(n));
                }
                assert forall|n: Seq<u8>| #[trigger] last_named(t, n) is Some implies (self.entry(n) is Some && entry_of(last_named(t, n)->Some_0, idx as int, self.entry(n)->Some_0)) by {
                    assert(last_named(t, n) == if name_key(recs@[i as int].name@) == n { Some(recs@[i as int]) } else { last_named(recs@.take(i as int), n) });
                    assert(self.entry(n) == if n == en { self.entry(n) } else { prev.entry(n) });
                    if n != en {
                        assert(last_named(t, n) == last_named(recs@.take(i as int), n));
                    }
                }
            }
            i += 1;
        }
        proof {
            assert(recs@.take(recs@.len() as int) =~= recs@);
            assert forall|n: Seq<u8>| !holds_name(bview, n) implies #[trigger] self.entry(n) == olds.entry(n) by {
                lemma_holds_name(bview, recs@, n);
            }
            assert forall|n: Seq<u8>| holds_name(bview, n) implies (#[trigger] self.entry(n) matches Some(e) && e.archive == olds.archives().len()) by {
                lemma_holds_name(bview, recs@, n);
            }
            assert forall|n: Seq<u8>| #[trigger] self.entry(n) == olds.entry(n) || (last_named(recs@, n) matches Some(w) && self.entry(n) matches Some(e) && entry_of(w, olds.archives().len() as int, e)) by {
                if last_named(recs@, n) is None {
                }
            }
        }
        Ok(recs.len())
    }

    /// The entry whose name equals `name` once both are lowercased.
    pub fn get(&self, name: &[u8]) -> (r: Option<&ArchiveEntry>)
        ensures
            r is Some <==> self.entry(lower(name@)) is Some,
            r matches Some(x) ==> self.entry(lower(name@)) == Some(*x),
            r matches Some(x) ==> (self.wf() ==> x.archive < self.archives().len()),
    {
        proof {
            if self.wf() {
                lemma_lookup_archive(self, lower(name@));
            }
        }
        let key = to_lower(name);
        let mut i: usize = self.entries.len();
        assert(self.entries@.take(i as int) =~= self.entries@);
        while i > 0
            invariant
                i <= self.entries@.len(),
                key@ == lower(name@),
                lookup(self.entries@, key@) == lookup(self.entries@.take(i as int), key@),
            decreases i,
        {
            let t = Ghost(self.entries@.take(i as int));
            proof {
                assert(t@.drop_last() =~= self.entries@.take(i - 1));
            }
            if bytes_eq(&self.entries[i - 1].name, &key) {
                return Some(&self.entries[i - 1]);
            }
            i -= 1;
        }
        None
    }

    /// The stored bytes of `e`, an entry of this catalog, when they lie
    /// within its archive.
    pub fn entry_data(&self, e: &ArchiveEntry) -> (r: Option<Vec<u8>>)
        requires
            self.wf(),
            e.archive < self.archives().len(),
        ensures
            r is Some <==> e.offset + e.disk_size <= self.archives()[e.archive as int].len(),
            r matches Some(d) ==> d@ == self.archives()[e.archive as int].subrange(
                e.offset as int,
                e.offset + e.disk_size,
            ),
    {
        let a = &self.archives[e.archive];
        proof {
            assert(a@ == self.archives()[e.archive as int]);
        }
        let start = e.offset as usize;
        let size = e.disk_size as usize;
        if start > a.len() || size > a.len() - start {
            return None;
        }
        let d = copy_range(a, start, start + size);
        Some(d)
    }
}

/// Every entry that the catalog finds refers to one of its archives.
pub proof fn lemma_lookup_archive(c: &ArchiveCatalog, n: Seq<u8>)
    requires
        c.wf(),
    ensures
        c.entry(n) matches Some(e) ==> e.archive < c.archives().len(),
{
    lemma_lookup_member(c.entries(), n);
}

proof fn lemma_lookup_member(s: Seq<ArchiveEntry>, n: Seq<u8>)
    ensures
        lookup(s, n) matches Some(e) ==> exists|i: int| 0 <= i < s.len() && s[i] == e,
    decreases s.len(),
{
    if s.len() > 0 && s.last().name@ != n {
        lemma_lookup_member(s.drop_last(), n);
        if lookup(s, n) is Some {
            let i = choose|i: int| 0 <= i < s.drop_last().len() && s.drop_last()[i] == lookup(s, n)->Some_0;
            assert(s[i] == s.drop_last()[i]);
        }
    } else if s.len() > 0 {
        assert(s[s.len() - 1] == s.last());
    }
}

/// Why a named entry could not be read.
#[derive(Debug, PartialEq, Eq, Structural)]
pub enum ReadError {
    /// No entry has the name, or its bytes lie outside its archive.
    NotFound,
}

/// The valid archives of `archives`, in order.
pub open spec fn valid_archives(archives: Seq<Seq<u8>>) -> Seq<Seq<u8>>
    decreases archives.len(),
{
    if archives.len() == 0 {
        Seq::empty()
    } else if wad_valid(archives.last()) {
        valid_archives(archives.drop_last()).push(archives.last())
    } else {
        valid_archives(archives.drop_last())
    }
}

/// The stored bytes of the catalog entry named `n`, when they lie within
/// its archive.
pub open spec fn entry_bytes(c: &ArchiveCatalog, n: Seq<u8>) -> Option<Seq<u8>> {
    match c.entry(n) {
        Some(e) => if e.archive < c.archives().len() && e.offset + e.disk_size <= c.archives()[e.archive as int].len() {
            Some(c.archives()[e.archive as int].subrange(e.offset as int, e.offset + e.disk_size))
        } else {
            None
        },
        None => None,
    }
}

/// A flat, case-insensitive namespace over the entries of texture archives.
pub struct WadAssetReader {
    catalog: ArchiveCatalog,
}

impl WadAssetReader {
    /// The merged catalog.
    pub closed spec fn catalog_view(&self) -> ArchiveCatalog {
        self.catalog
    }

    /// Builds the namespace from the bytes of archive files, in scan order.
    /// Bytes that are not an archive are skipped; of two entries with the
    /// same name, the one scanned later wins.
    pub fn new(archives: Vec<Vec<u8>>) -> (r: Self)
        ensures
            r.catalog_view().wf(),
            r.catalog_view().archives() == valid_archives(archives@.map_values(|a: Vec<u8>| a@)),
            forall|n: Seq<u8>| #[trigger] r.catalog_view().entry(n) is Some <==> exists|a: int|
                0 <= a < r.catalog_view().archives().len() && holds_name(#[trigger] r.catalog_view().archives()[a], n),
            forall|n: Seq<u8>| #[trigger] r.catalog_view().entry(n) matches Some(e) ==> {
                &&& holds_name(r.catalog_view().archives()[e.archive as int], n)
                &&& forall|a: int| e.archive < a < r.catalog_view().archives().len() ==> !holds_name(#[trigger] r.catalog_view().archives()[a], n)
            },
    {
        let ghost av = archives@.map_values(|a: Vec<u8>| a@);
        let mut catalog = ArchiveCatalog::new();
        let mut rest = archives;
        let mut i: usize = 0;
        let n = rest.len();
        proof {
            assert(catalog.archives() =~= valid_archives(av.take(0)));
        }
        while rest.len() > 0
            invariant
                catalog.wf(),
                i + rest@.len() == n,
                n == av.len(),
                rest@.map_values(|a: Vec<u8>| a@) == av.skip(i as int),
                catalog.archives() == valid_archives(av.take(i as int)),
                forall|n: Seq<u8>| #[trigger] catalog.entry(n) is Some <==> exists|a: int|
                    0 <= a < catalog.archives().len() && holds_name(#[trigger] catalog.archives()[a], n),
                forall|n: Seq<u8>| #[trigger] catalog.entry(n) matches Some(e) ==> {
                    &&& holds_name(catalog.archives()[e.archive as int], n)
                    &&& forall|a: int| e.archive < a < catalog.archives().len() ==> !holds_name(#[trigger] catalog.archives()[a], n)
                },
            decreases rest@.len(),
        {
            let ghost r0 = rest@;
            let a = rest.remove(0);
            proof {
                assert(r0.map_values(|a: Vec<u8>| a@)[0] == av.skip(i as int)[0]);
                assert(a@ == av.skip(i as int)[0]);
                assert forall|k: int| 0 <= k < rest@.len() implies #[trigger] rest@[k]@ == av.skip(i + 1)[k] by {
                    assert(rest@[k] == r0[k + 1]);
                    assert(r0.map_values(|a: Vec<u8>| a@)[k + 1] == av.skip(i as int)[k + 1]);
                }
                assert(av.take(i + 1).drop_last() =~= av.take(i as int));
                assert(av.take(i + 1).last() == a@);
                assert(rest@.map_values(|a: Vec<u8>| a@) =~= av.skip(i + 1));
            }
            let ghost before = catalog;
            let ghost aview = a@;
            let added = catalog.add_archive(a);
            proof {
                let cv = catalog.archives();
                if added is Ok {
                    assert forall|n: Seq<u8>| #[trigger] catalog.entry(n) is Some <==> exists|k: int|
                        0 <= k < cv.len() && holds_name(#[trigger] cv[k], n) by {
                        if holds_name(aview, n) {
                            assert(cv[cv.len() - 1] == aview);
                        } else {
                            assert(catalog.entry(n) == before.entry(n));
                            if exists|k: int| 0 <= k < cv.len() && holds_name(#[trigger] cv[k], n) {
                                let k = choose|k: int| 0 <= k < cv.len() && holds_name(#[trigger] cv[k], n);
                                assert(k < cv.len() - 1);
                                assert(cv[k] == before.archives()[k]);
                            }
                            if exists|k: int| 0 <= k < before.archives().len() && holds_name(#[trigger] before.archives()[k], n) {
                                let k = choose|k: int| 0 <= k < before.archives().len() && holds_name(#[trigger] before.archives()[k], n);
                                assert(cv[k] == before.archives()[k]);
                            }
                        }
                    }
                    assert forall|n: Seq<u8>| #[trigger] catalog.entry(n) is Some implies {
                        &&& holds_name(cv[catalog.entry(n)->Some_0.archive as int], n)
                        &&& forall|k: int| catalog.entry(n)->Some_0.archive < k < cv.len() ==> !holds_name(#[trigger] cv[k], n)
                    } by {
                        let e = catalog.entry(n)->Some_0;
                        if holds_name(aview, n) {
                            assert(cv[cv.len() - 1] == aview);
                        } else {
                            assert(catalog.entry(n) == before.entry(n));
                            lemma_lookup_archive(&before, n);
                            assert(cv[e.archive as int] == before.archives()[e.archive as int]);
                            assert forall|k: int| e.archive < k < cv.len() implies !holds_name(#[trigger] cv[k], n) by {
                                if k < cv.len() - 1 {
                                    assert(cv[k] == before.archives()[k]);
                                }
                            }
                        }
                    }
                }
            }
            i += 1;
        }
        proof {
            assert(av.take(n as int) =~= av);
        }
        WadAssetReader { catalog }
    }

    /// The merged catalog.
    pub fn catalog(&self) -> (r: &ArchiveCatalog)
        ensures
            *r == self.catalog_view(),
    {
        &self.catalog
    }

    /// The bytes of the entry named `name`, compared without regard to ASCII
    /// case.
    pub fn read(&self, name: &[u8]) -> (r: Result<Vec<u8>, ReadError>)
        requires
            self.catalog_view().wf(),
        ensures
            r is Err <==> entry_bytes(&self.catalog_view(), lower(name@)) is None,
            r matches Ok(d) ==> entry_bytes(&self.catalog_view(), lower(name@)) == Some(d@),
    {
        let e = match self.catalog.get(name) {
            Some(e) => e,
            None => return Err(ReadError::NotFound),
        };
        match self.catalog.entry_data(e) {
            Some(d) => Ok(d),
            None => Err(ReadError::NotFound),
        }
    }
}

/// Whether a file extension names an archive: "wad" in any ASCII case.
pub fn is_archive_extension(ext: &[u8]) -> (r: bool)
    ensures
        r == (lower(ext@) == seq![119u8, 97u8, 100u8]),
{
    let l = to_lower(ext);
    if l.len() != 3 {
        return false;
    }
    let r = l[0] == 119 && l[1] == 97 && l[2] == 100;
    proof {
        if r {
            assert(l@ =~= seq![119u8, 97u8, 100u8]);
        } else {
            assert(l@ != seq![119u8, 97u8, 100u8] || !r);
            if l@ == seq![119u8, 97u8, 100u8] {
                assert(l@[0] == 119 && l@[1] == 97 && l@[2] == 100);
            }
        }
    }
    r
}

} // verus!
