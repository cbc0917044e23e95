//! What the engine asks of a file system, and what it offers every file
//! system: opaque file handles, path lookup and the plain directory listing.

use crate::nfs::{
    cookieverf3, fattr3, fileid3, filename3, fsinfo3, nfs_fh3, nfspath3, nfsstat3, nfsstring,
    nfstime3, post_op_attr, sattr3, FSF_CANSETTIME, FSF_HOMOGENEOUS, FSF_SYMLINK,
};
use vstd::prelude::*;

verus! {

/// A directory entry: the identifier and name of a file.
#[derive(Debug)]
pub struct DirEntrySimple {
    pub fileid: fileid3,
    pub name: filename3,
}

/// A page of a plain directory listing.
#[derive(Debug)]
pub struct ReadDirSimpleResult {
    pub entries: Vec<DirEntrySimple>,
    /// Whether the page reaches the end of the directory.
    pub end: bool,
}

/// A directory entry with the attributes of the file.
#[derive(Debug)]
pub struct DirEntry {
    pub fileid: fileid3,
    pub name: filename3,
    pub attr: fattr3,
}

/// A page of a directory listing.
#[derive(Debug)]
pub struct ReadDirResult {
    pub entries: Vec<DirEntry>,
    /// Whether the page reaches the end of the directory.
    pub end: bool,
}

impl Default for ReadDirSimpleResult {
    fn default() -> (r: ReadDirSimpleResult)
        ensures
            r.entries@.len() == 0,
            !r.end,
    {
        ReadDirSimpleResult { entries: Vec::new(), end: false }
    }
}

impl Default for ReadDirResult {
    fn default() -> (r: ReadDirResult)
        ensures
            r.entries@.len() == 0,
            !r.end,
    {
        ReadDirResult { entries: Vec::new(), end: false }
    }
}

/// Whether `plain` is the page `page` without the attributes: the same
/// entries by identifier and name, in the same order, and the same end.
pub open spec fn plain_page(page: ReadDirResult, plain: ReadDirSimpleResult) -> bool {
    &&& plain.end == page.end
    &&& plain.entries@.len() == page.entries@.len()
    &&& forall|i: int|
        0 <= i < plain.entries@.len() ==> {
            &&& (#[trigger] plain.entries@[i]).fileid == page.entries@[i].fileid
            &&& plain.entries@[i].name@ == page.entries@[i].name@
        }
}

/// Whether `plain` is the answer `answer` of a listing without the
/// attributes: the plain page of a page, or the same failure.
pub open spec fn plain_answer(
    answer: Result<ReadDirResult, nfsstat3>,
    plain: Result<ReadDirSimpleResult, nfsstat3>,
) -> bool {
    match answer {
        Ok(page) => plain matches Ok(p) && plain_page(page, p),
        Err(stat) => plain matches Err(s) && s == stat,
    }
}

impl ReadDirSimpleResult {
    /// The same page without the attributes.
    pub fn from_readdir_result(result: &ReadDirResult) -> (r: ReadDirSimpleResult)
        ensures
            plain_page(*result, r),
    {
        let mut entries: Vec<DirEntrySimple> = Vec::new();
        let n: usize = result.entries.len();
        let mut i: usize = 0;
        while i < n
            invariant
                i <= n,
                n == result.entries@.len(),
                entries@.len() == i,
                forall|j: int|
                    0 <= j < i ==> {
                        &&& (#[trigger] entries@[j]).fileid == result.entries@[j].fileid
                        &&& entries@[j].name@ == result.entries@[j].name@
                    },
            decreases n - i,
        {
            let e = &result.entries[i];
            entries.push(DirEntrySimple { fileid: e.fileid, name: e.name.duplicate() });
            i = i + 1;
        }
        ReadDirSimpleResult { entries, end: result.end }
    }
}

/// What a file system lets clients do.
#[derive(Copy, Clone, Debug, PartialEq, Eq, Structural)]
pub enum VFSCapabilities {
    ReadOnly,
    ReadWrite,
}

/// The eight bytes of a number, least significant first.
pub open spec fn le64_bytes(v: u64) -> Seq<u8> {
    Seq::new(8, |i: int| le64_byte(v, i))
}

/// Byte `i` of a number, counted from the least significant.
pub open spec fn le64_byte(v: u64, i: int) -> u8 {
    if i == 0 {
        (v as int % 0x100) as u8
    } else if i == 1 {
        (v as int / 0x100 % 0x100) as u8
    } else if i == 2 {
        (v as int / 0x1_0000 % 0x100) as u8
    } else if i == 3 {
        (v as int / 0x100_0000 % 0x100) as u8
    } else if i == 4 {
        (v as int / 0x1_0000_0000 % 0x100) as u8
    } else if i == 5 {
        (v as int / 0x100_0000_0000 % 0x100) as u8
    } else if i == 6 {
        (v as int / 0x1_0000_0000_0000 % 0x100) as u8
    } else {
        (v as int / 0x100_0000_0000_0000 % 0x100) as u8
    }
}

/// The number that eight bytes spell, least significant first.
pub open spec fn le64(b: Seq<u8>) -> u64 {
    (b[0] as int + b[1] as int * 0x100 + b[2] as int * 0x1_0000 + b[3] as int * 0x100_0000
        + b[4] as int * 0x1_0000_0000 + b[5] as int * 0x100_0000_0000 + b[6] as int
        * 0x1_0000_0000_0000 + b[7] as int * 0x100_0000_0000_0000) as u64
}

/// Reading back the bytes of a number gives the number.
pub proof fn lemma_le64_roundtrip(v: u64)
    ensures
        le64(le64_bytes(v)) == v,
        le64_bytes(v).len() == 8,
{
    assert(v == v % 0x100 + v / 0x100 % 0x100 * 0x100 + v / 0x1_0000 % 0x100 * 0x1_0000 + v
        / 0x100_0000 % 0x100 * 0x100_0000 + v / 0x1_0000_0000 % 0x100 * 0x1_0000_0000 + v
        / 0x100_0000_0000 % 0x100 * 0x100_0000_0000 + v / 0x1_0000_0000_0000 % 0x100
        * 0x1_0000_0000_0000 + v / 0x100_0000_0000_0000 % 0x100 * 0x100_0000_0000_0000)
        by (bit_vector);
}

/// The opaque handle of file `id` on the server that identifies itself as
/// `serverid`: the server's identifier, then the file's, least significant
/// byte first.
pub open spec fn handle_bytes(serverid: Seq<u8>, id: fileid3) -> Seq<u8> {
    serverid + le64_bytes(id)
}

/// The file that a handle names on the server that identifies itself as
/// `serverid`. A handle that is not sixteen bytes long is malformed; one
/// that another server instance issued is stale.
pub open spec fn handle_id(serverid: Seq<u8>, fh: Seq<u8>) -> Result<fileid3, nfsstat3> {
    if fh.len() != 16 {
        Err(nfsstat3::NFS3ERR_BADHANDLE)
    } else if fh.subrange(0, 8) != serverid {
        Err(nfsstat3::NFS3ERR_STALE)
    } else {
        Ok(le64(fh.subrange(8, 16)))
    }
}

/// A handle names the file it was made for, as long as the server instance
/// that made it reads it.
pub proof fn lemma_handle_roundtrip(serverid: Seq<u8>, id: fileid3)
    requires
        serverid.len() == 8,
    ensures
        handle_bytes(serverid, id).len() == 16,
        handle_id(serverid, handle_bytes(serverid, id)) == Ok::<fileid3, nfsstat3>(id),
{
    let fh = handle_bytes(serverid, id);
    assert(fh.subrange(0, 8) =~= serverid);
    assert(fh.subrange(8, 16) =~= le64_bytes(id));
    lemma_le64_roundtrip(id);
}

/// A handle that is not sixteen bytes long is malformed, whatever it holds.
pub proof fn lemma_malformed_handle(serverid: Seq<u8>, fh: Seq<u8>)
    requires
        fh.len() != 16,
    ensures
        handle_id(serverid, fh) == Err::<fileid3, nfsstat3>(nfsstat3::NFS3ERR_BADHANDLE),
{
}

/// A handle from another server instance is stale, whatever file it names.
pub proof fn lemma_foreign_handle_is_stale(serverid: Seq<u8>, other: Seq<u8>, id: fileid3)
    requires
        serverid.len() == 8,
        other.len() == 8,
        other != serverid,
    ensures
        handle_id(serverid, handle_bytes(other, id)) == Err::<fileid3, nfsstat3>(
            nfsstat3::NFS3ERR_STALE,
        ),
{
    let fh = handle_bytes(other, id);
    assert(fh.subrange(0, 8) =~= other);
}

/// The identifier of the server instance whose generation number is
/// `generation`: the number, least significant byte first.
pub fn generation_serverid(generation: u64) -> (id: cookieverf3)
    ensures
        id@ == le64_bytes(generation),
{
    let mut id: cookieverf3 = [0u8; 8];
    let mut rest: u64 = generation;
    id[0] = (rest % 0x100) as u8;
    id[1] = (rest / 0x100 % 0x100) as u8;
    id[2] = (rest / 0x1_0000 % 0x100) as u8;
    id[3] = (rest / 0x100_0000 % 0x100) as u8;
    id[4] = (rest / 0x1_0000_0000 % 0x100) as u8;
    id[5] = (rest / 0x100_0000_0000 % 0x100) as u8;
    id[6] = (rest / 0x1_0000_0000_0000 % 0x100) as u8;
    id[7] = (rest / 0x100_0000_0000_0000 % 0x100) as u8;
    assert(id@ =~= le64_bytes(generation));
    id
}

/// The opaque handle of file `id` on the server `serverid`.
pub fn make_handle(serverid: &cookieverf3, id: fileid3) -> (fh: nfs_fh3)
    ensures
        fh@ == handle_bytes(serverid@, id),
{
    let low: cookieverf3 = generation_serverid(id);
    let mut data: Vec<u8> = Vec::new();
    let mut i: usize = 0;
    while i < 8
        invariant
            i <= 8,
            data@ == serverid@.subrange(0, i as int),
        decreases 8 - i,
    {
        data.push(serverid[i]);
        i = i + 1;
    }
    assert(serverid@.subrange(0, 8) =~= serverid@);
    let mut j: usize = 0;
    while j < 8
        invariant
            j <= 8,
            data@ == serverid@ + low@.subrange(0, j as int),
        decreases 8 - j,
    {
        data.push(low[j]);
        j = j + 1;
    }
    assert(low@.subrange(0, 8) =~= low@);
    nfs_fh3 { data }
}

/// The file that a handle names on the server `serverid`.
pub fn read_handle(serverid: &cookieverf3, fh: &nfs_fh3) -> (r: Result<fileid3, nfsstat3>)
    ensures
        r == handle_id(serverid@, fh@),
{
    if fh.data.len() != 16 {
        return Err(nfsstat3::NFS3ERR_BADHANDLE);
    }
    let mut i: usize = 0;
    while i < 8
        invariant
            i <= 8,
            fh@.len() == 16,
            forall|j: int| 0 <= j < i ==> fh@[j] == serverid@[j],
        decreases 8 - i,
    {
        if fh.data[i] != serverid[i] {
            assert(fh@.subrange(0, 8)[i as int] != serverid@[i as int]);
            return Err(nfsstat3::NFS3ERR_STALE);
        }
        i = i + 1;
    }
    assert(fh@.subrange(0, 8) =~= serverid@);
    let ghost b = fh@.subrange(8, 16);
    assert(forall|k: int| 0 <= k < 8 ==> b[k] == fh@[8 + k]);
    let id: u64 = (fh.data[8] as u64) + (fh.data[9] as u64) * 0x100 + (fh.data[10] as u64)
        * 0x1_0000 + (fh.data[11] as u64) * 0x100_0000 + (fh.data[12] as u64) * 0x1_0000_0000
        + (fh.data[13] as u64) * 0x100_0000_0000 + (fh.data[14] as u64) * 0x1_0000_0000_0000
        + (fh.data[15] as u64) * 0x100_0000_0000_0000;
    Ok(id)
}


/// What READ returns of a file with the contents `data`: nothing and the
/// end of the file at or past its end; else the bytes from `offset` on, as
/// many as `count` and the file allow, and whether they reach its end.
pub open spec fn read_result(data: Seq<u8>, offset: u64, count: u32) -> (Seq<u8>, bool) {
    if offset >= data.len() {
        (Seq::empty(), true)
    } else {
        let n = if count <= data.len() - offset {
            count as int
        } else {
            data.len() - offset
        };
        (data.subrange(offset as int, offset + n), offset + n == data.len())
    }
}

/// What READ returns of a file with the contents `data`.
pub fn read_range(data: &[u8], offset: u64, count: u32) -> (r: (Vec<u8>, bool))
    ensures
        (r.0@, r.1) == read_result(data@, offset, count),
{
    let size: usize = data.len();
    if offset >= size as u64 {
        let empty: Vec<u8> = Vec::new();
        assert(empty@ =~= Seq::<u8>::empty());
        return (empty, true);
    }
    let start: usize = offset as usize;
    let left: usize = size - start;
    let n: usize = if (count as u64) <= left as u64 {
        count as usize
    } else {
        left
    };
    let mut bytes: Vec<u8> = Vec::new();
    let mut i: usize = 0;
    while i < n
        invariant
            i <= n,
            start + n <= size,
            size == data@.len(),
            bytes@ == data@.subrange(start as int, start + i),
        decreases n - i,
    {
        bytes.push(data[start + i]);
        i = i + 1;
        assert(bytes@ =~= data@.subrange(start as int, start + i));
    }
    (bytes, start + n == size)
}

/// The place of the first entry `id` in a directory, or the length of the
/// directory if it has no such entry.
pub open spec fn place_of(dir: Seq<fileid3>, id: fileid3) -> int
    decreases dir.len(),
{
    if dir.len() == 0 || dir[0] == id {
        0
    } else {
        1 + place_of(dir.skip(1), id)
    }
}

/// The entries that a listing resumed at `cookie` holds: all of the
/// directory for the cookie zero, else those behind the entry `cookie`.
pub open spec fn entries_behind(dir: Seq<fileid3>, cookie: fileid3) -> Seq<fileid3> {
    if cookie == 0 {
        dir
    } else if place_of(dir, cookie) < dir.len() {
        dir.skip(place_of(dir, cookie) + 1)
    } else {
        Seq::empty()
    }
}

/// A directory as a listing walks it: no entry is zero, and none occurs
/// twice.
pub open spec fn listable(dir: Seq<fileid3>) -> bool {
    &&& forall|i: int| 0 <= i < dir.len() ==> dir[i] != 0
    &&& forall|i: int, j: int| 0 <= i < j < dir.len() ==> dir[i] != dir[j]
}

/// The page that a call resumed at `cookie` returns when `take` entries fit
/// the reply: the first `take` entries behind the cookie, or all that are
/// left.
pub open spec fn page_behind(dir: Seq<fileid3>, cookie: fileid3, take: nat) -> Seq<fileid3> {
    let rest = entries_behind(dir, cookie);
    if take <= rest.len() {
        rest.take(take as int)
    } else {
        rest
    }
}

/// The cookie to resume at after a page: that of its last entry, or the
/// cookie before if the page is empty.
pub open spec fn cookie_after(cookie: fileid3, page: Seq<fileid3>) -> fileid3 {
    if page.len() == 0 {
        cookie
    } else {
        page.last()
    }
}

/// The entries that a chain of calls returns, each resumed at the last
/// cookie of the one before, when `takes` says how many entries fit each
/// reply.
pub open spec fn walk(dir: Seq<fileid3>, cookie: fileid3, takes: Seq<nat>) -> Seq<fileid3>
    decreases takes.len(),
{
    if takes.len() == 0 {
        Seq::empty()
    } else {
        let page = page_behind(dir, cookie, takes[0]);
        page + walk(dir, cookie_after(cookie, page), takes.skip(1))
    }
}

/// The sum of numbers.
pub open spec fn total(takes: Seq<nat>) -> nat
    decreases takes.len(),
{
    if takes.len() == 0 {
        0
    } else {
        takes[0] + total(takes.skip(1))
    }
}

/// In a directory without repeats, an entry stands where it is found.
pub proof fn lemma_place_of(dir: Seq<fileid3>, at: int)
    requires
        listable(dir),
        0 <= at < dir.len(),
    ensures
        place_of(dir, dir[at]) == at,
    decreases dir.len(),
{
    if at > 0 {
        let rest = dir.skip(1);
        assert(forall|i: int| 0 <= i < rest.len() ==> rest[i] == dir[i + 1]);
        lemma_place_of(rest, at - 1);
    }
}

/// A chain of calls that starts behind the first `done` entries returns
/// the entries behind them in order, as many as fit the replies.
pub proof fn lemma_walk_from(dir: Seq<fileid3>, cookie: fileid3, done: int, takes: Seq<nat>)
    requires
        listable(dir),
        0 <= done <= dir.len(),
        entries_behind(dir, cookie) == dir.skip(done),
    ensures
        walk(dir, cookie, takes) == dir.subrange(
            done,
            if done + total(takes) <= dir.len() {
                done + total(takes)
            } else {
                dir.len() as int
            },
        ),
    decreases takes.len(),
{
    if takes.len() == 0 {
        assert(walk(dir, cookie, takes) =~= dir.subrange(done, done));
    } else {
        let page = page_behind(dir, cookie, takes[0]);
        let next = cookie_after(cookie, page);
        let m = page.len() as int;
        if m > 0 {
            assert(page.last() == dir[done + m - 1]);
            lemma_place_of(dir, done + m - 1);
        }
        assert(entries_behind(dir, next) =~= dir.skip(done + m));
        lemma_walk_from(dir, next, done + m, takes.skip(1));
        let end = if done + total(takes) <= dir.len() {
            done + total(takes)
        } else {
            dir.len() as int
        };
        assert(page =~= dir.subrange(done, done + m));
        assert(walk(dir, cookie, takes) =~= dir.subrange(done, end));
    }
}

/// Listing a directory that does not change, from the cookie zero and then
/// from the last cookie of each reply, returns its entries in order, none
/// twice and none left out: after replies that held `takes` entries, the
/// first `total(takes)` entries of the directory, or all of it.
pub proof fn lemma_pages_enumerate(dir: Seq<fileid3>, takes: Seq<nat>)
    requires
        listable(dir),
    ensures
        total(takes) >= dir.len() ==> walk(dir, 0, takes) == dir,
        total(takes) <= dir.len() ==> walk(dir, 0, takes) == dir.take(total(takes) as int),
{
    assert(dir.skip(0) =~= dir);
    lemma_walk_from(dir, 0, 0, takes);
    assert(dir.subrange(0, dir.len() as int) =~= dir);
}

/// In a directory listed in rising order, every entry of a page is greater
/// than the cookie at which the call resumed.
pub proof fn lemma_page_is_behind_cookie(dir: Seq<fileid3>, at: int, take: nat, i: int)
    requires
        listable(dir),
        forall|a: int, b: int| 0 <= a < b < dir.len() ==> dir[a] < dir[b],
        0 <= at < dir.len(),
        0 <= i < page_behind(dir, dir[at], take).len(),
    ensures
        page_behind(dir, dir[at], take)[i] > dir[at],
{
    lemma_place_of(dir, at);
}

/// The path separator.
pub const SLASH: u8 = 47;

/// Scanning a path from the left: the components that are complete, and the
/// bytes of the one that is not yet.
pub open spec fn path_scan(path: Seq<u8>) -> (Seq<Seq<u8>>, Seq<u8>)
    decreases path.len(),
{
    if path.len() == 0 {
        (Seq::empty(), Seq::empty())
    } else {
        let (done, current) = path_scan(path.drop_last());
        if path.last() != SLASH {
            (done, current.push(path.last()))
        } else if current.len() > 0 {
            (done.push(current), Seq::empty())
        } else {
            (done, current)
        }
    }
}

/// The components of a path: its maximal runs of bytes other than `/`, in
/// order. Empty components do not count.
pub open spec fn path_components(path: Seq<u8>) -> Seq<Seq<u8>> {
    let (done, current) = path_scan(path);
    if current.len() > 0 {
        done.push(current)
    } else {
        done
    }
}

/// The names that a vector of strings holds.
pub open spec fn names_of(v: Seq<nfsstring>) -> Seq<Seq<u8>> {
    v.map_values(|s: nfsstring| s@)
}

/// Splits a path into its components.
pub fn split_path(path: &[u8]) -> (parts: Vec<nfsstring>)
    ensures
        names_of(parts@) == path_components(path@),
{
    let mut parts: Vec<nfsstring> = Vec::new();
    let mut current: Vec<u8> = Vec::new();
    let n: usize = path.len();
    let mut i: usize = 0;
    while i < n
        invariant
            i <= n,
            n == path@.len(),
            path_scan(path@.subrange(0, i as int)) == (names_of(parts@), current@),
        decreases n - i,
    {
        let b: u8 = path[i];
        proof {
            let next = path@.subrange(0, i + 1);
            assert(next.drop_last() =~= path@.subrange(0, i as int));
            assert(next.last() == b);
        }
        if b != SLASH {
            current.push(b);
        } else if current.len() > 0 {
            let ghost before = names_of(parts@);
            let ghost name = current@;
            let mut finished: Vec<u8> = Vec::new();
            std::mem::swap(&mut finished, &mut current);
            parts.push(nfsstring(finished));
            assert(names_of(parts@) =~= before.push(name));
            assert(current@ =~= Seq::empty());
        }
        i = i + 1;
    }
    assert(path@.subrange(0, n as int) =~= path@);
    if current.len() > 0 {
        let ghost before = names_of(parts@);
        let ghost name = current@;
        parts.push(nfsstring(current));
        assert(names_of(parts@) =~= before.push(name));
    }
    parts
}

/// The static information that the engine reports of every file system.
pub open spec fn standard_fsinfo(obj_attributes: post_op_attr) -> fsinfo3 {
    fsinfo3 {
        obj_attributes,
        rtmax: 0x10_0000,
        rtpref: 0x10_0000,
        rtmult: 0x10_0000,
        wtmax: 0x10_0000,
        wtpref: 0x10_0000,
        wtmult: 0x10_0000,
        dtpref: 0x10_0000,
        maxfilesize: 0x20_0000_0000,
        time_delta: nfstime3 { seconds: 0, nseconds: 1000000 },
        properties: 0x1a,
    }
}

/// The static information of a file system whose root has the attributes
/// `obj_attributes`: transfers of up to one mebibyte, files of up to 128
/// gibibytes, times to the millisecond, symbolic links, homogeneous, and
/// settable times.
pub fn make_fsinfo(obj_attributes: post_op_attr) -> (info: fsinfo3)
    ensures
        info == standard_fsinfo(obj_attributes),
{
    let properties: u32 = FSF_SYMLINK | FSF_HOMOGENEOUS | FSF_CANSETTIME;
    assert(0x2u32 | 0x8u32 | 0x10u32 == 0x1au32) by (bit_vector);
    fsinfo3 {
        obj_attributes,
        rtmax: 1024 * 1024,
        rtpref: 1024 * 1024,
        rtmult: 1024 * 1024,
        wtmax: 1024 * 1024,
        wtpref: 1024 * 1024,
        wtmult: 1024 * 1024,
        dtpref: 1024 * 1024,
        maxfilesize: 128 * 1024 * 1024 * 1024,
        time_delta: nfstime3 { seconds: 0, nseconds: 1000000 },
        properties,
    }
}

/// Where lookup `k` of a walk starts: at the root, or in the directory that
/// the lookup before found.
pub open spec fn walk_from(
    root: fileid3,
    steps: Seq<Result<fileid3, nfsstat3>>,
    k: int,
) -> fileid3 {
    if k == 0 {
        root
    } else {
        steps[k - 1]->Ok_0
    }
}

/// Whether `steps` are the lookups of a walk along `n` components: one for
/// each component in turn, all but the last successful, and fewer than `n`
/// only where the last one failed.
pub open spec fn walk_shape(n: int, steps: Seq<Result<fileid3, nfsstat3>>) -> bool {
    &&& steps.len() <= n
    &&& forall|k: int| 0 <= k < steps.len() - 1 ==> (#[trigger] steps[k]) is Ok
    &&& steps.len() < n ==> steps.len() > 0 && steps.last() is Err
}

/// Where a walk ends: at the root if it made no lookup, else with what its
/// last lookup answered.
pub open spec fn walk_end(root: fileid3, steps: Seq<Result<fileid3, nfsstat3>>) -> Result<
    fileid3,
    nfsstat3,
> {
    if steps.len() == 0 {
        Ok(root)
    } else {
        steps.last()
    }
}

/// The attributes that a reply carries for an answer of `getattr`: the
/// attributes, or none where the file system failed.
pub open spec fn attributes_answered(answer: Result<fattr3, nfsstat3>) -> post_op_attr {
    match answer {
        Ok(a) => post_op_attr::attributes(a),
        Err(_) => post_op_attr::Void,
    }
}

/// The file system that the engine serves. An implementation identifies a
/// file by a 64-bit number; zero is reserved and names no file. The engine
/// makes the opaque handles: the identifier of the server instance, then
/// the file's number.
///
/// `capabilities`, `root_dir` and `serverid` answer the same on every call:
/// the engine relies on it when it tells a client that a handle is stale or
/// that the file system is read-only. What they answer is
/// `capabilities_spec`, `root_dir_spec` and `serverid_spec`, which an
/// implementation that is verified defines. Every other operation may
/// answer as the state of the file system has it.
///
/// The operations that change the file system are called only on a file
/// system that takes changes: the engine refuses the others before it
/// reaches the file system.
///
/// For each operation that an implementation has to supply there is a
/// predicate, named after the operation, that holds of what the operation
/// answers to given arguments. It says nothing by itself; an implementation
/// that is verified may say more. What is built on the operations states
/// through it which operation it asked with which arguments, and that what
/// it hands on is what was answered.
pub trait NFSFileSystem {
    /// What `capabilities` answers. An implementation that is verified
    /// says what; of any other, this is whatever it answers.
    open spec fn capabilities_spec(&self) -> VFSCapabilities {
        arbitrary()
    }

    /// What `root_dir` answers.
    open spec fn root_dir_spec(&self) -> fileid3 {
        arbitrary()
    }

    /// What `serverid` answers.
    open spec fn serverid_spec(&self) -> Seq<u8> {
        arbitrary()
    }

    /// What the file system lets clients do.
    fn capabilities(&self) -> (c: VFSCapabilities)
        ensures
            c == self.capabilities_spec(),
    ;

    /// The identifier of the root directory `/`.
    fn root_dir(&self) -> (id: fileid3)
        ensures
            id == self.root_dir_spec(),
    ;

    /// Whether `answer` is what the file system answers to `lookup` of
    /// `filename` in `dirid`. It is true of every answer unless an
    /// implementation says more.
    open spec fn lookup_answers(
        &self,
        dirid: fileid3,
        filename: Seq<u8>,
        answer: Result<fileid3, nfsstat3>,
    ) -> bool {
        true
    }

    /// The identifier of the file `filename` in directory `dirid`.
    fn lookup(&self, dirid: fileid3, filename: &filename3) -> (r: Result<fileid3, nfsstat3>)
        ensures
            self.lookup_answers(dirid, filename@, r),
    ;

    /// Whether `answer` is what the file system answers to `getattr` of `id`.
    /// It is true of every answer unless an implementation says more.
    open spec fn getattr_answers(&self, id: fileid3, answer: Result<fattr3, nfsstat3>) -> bool {
        true
    }

    /// The attributes of a file.
    fn getattr(&self, id: fileid3) -> (r: Result<fattr3, nfsstat3>)
        ensures
            self.getattr_answers(id, r),
    ;

    /// Whether `answer` is what the file system answers to `setattr` of `id`.
    /// It is true of every answer unless an implementation says more.
    open spec fn setattr_answers(
        &self,
        id: fileid3,
        setattr: sattr3,
        answer: Result<fattr3, nfsstat3>,
    ) -> bool {
        true
    }

    /// Sets attributes of a file and returns what they are afterwards.
    fn setattr(&self, id: fileid3, setattr: sattr3) -> (r: Result<fattr3, nfsstat3>)
        requires
            self.capabilities_spec() == VFSCapabilities::ReadWrite,
        ensures
            self.setattr_answers(id, setattr, r),
    ;

    /// Whether `answer` is what the file system answers to `read` of `count`
    /// bytes of `id` at `offset`. It is true of every answer unless an
    /// implementation says more.
    open spec fn read_answers(
        &self,
        id: fileid3,
        offset: u64,
        count: u32,
        answer: Result<(Vec<u8>, bool), nfsstat3>,
    ) -> bool {
        true
    }

    /// Up to `count` bytes of a file from `offset` on, and whether the read
    /// reached the end of the file.
    fn read(&self, id: fileid3, offset: u64, count: u32) -> (r: Result<(Vec<u8>, bool), nfsstat3>)
        ensures
            self.read_answers(id, offset, count, r),
    ;

    /// Whether `answer` is what the file system answers to `write` of `data`
    /// into `id` at `offset`. It is true of every answer unless an
    /// implementation says more.
    open spec fn write_answers(
        &self,
        id: fileid3,
        offset: u64,
        data: Seq<u8>,
        answer: Result<fattr3, nfsstat3>,
    ) -> bool {
        true
    }

    /// Writes `data` into a file at `offset`, extending the file if need be,
    /// and returns the attributes of the file afterwards.
    fn write(&self, id: fileid3, offset: u64, data: &[u8]) -> (r: Result<fattr3, nfsstat3>)
        requires
            self.capabilities_spec() == VFSCapabilities::ReadWrite,
        ensures
            self.write_answers(id, offset, data@, r),
    ;

    /// Whether `answer` is what the file system answers to `create` of
    /// `filename` in `dirid`. It is true of every answer unless an
    /// implementation says more.
    open spec fn create_answers(
        &self,
        dirid: fileid3,
        filename: Seq<u8>,
        attr: sattr3,
        answer: Result<(fileid3, fattr3), nfsstat3>,
    ) -> bool {
        true
    }

    /// Creates a file with the attributes given.
    fn create(&self, dirid: fileid3, filename: &filename3, attr: sattr3) -> (r: Result<
        (fileid3, fattr3),
        nfsstat3,
    >)
        requires
            self.capabilities_spec() == VFSCapabilities::ReadWrite,
        ensures
            self.create_answers(dirid, filename@, attr, r),
    ;

    /// Whether `answer` is what the file system answers to `create_exclusive`
    /// of `filename` in `dirid`. It is true of every answer unless an
    /// implementation says more.
    open spec fn create_exclusive_answers(
        &self,
        dirid: fileid3,
        filename: Seq<u8>,
        answer: Result<fileid3, nfsstat3>,
    ) -> bool {
        true
    }

    /// Creates a file unless one of that name exists.
    fn create_exclusive(&self, dirid: fileid3, filename: &filename3) -> (r: Result<
        fileid3,
        nfsstat3,
    >)
        requires
            self.capabilities_spec() == VFSCapabilities::ReadWrite,
        ensures
            self.create_exclusive_answers(dirid, filename@, r),
    ;

    /// Whether `answer` is what the file system answers to `mkdir` of `dirname`
    /// in `dirid`. It is true of every answer unless an implementation says
    /// more.
    open spec fn mkdir_answers(
        &self,
        dirid: fileid3,
        dirname: Seq<u8>,
        answer: Result<(fileid3, fattr3), nfsstat3>,
    ) -> bool {
        true
    }

    /// Makes a directory.
    fn mkdir(&self, dirid: fileid3, dirname: &filename3) -> (r: Result<(fileid3, fattr3), nfsstat3>)
        requires
            self.capabilities_spec() == VFSCapabilities::ReadWrite,
        ensures
            self.mkdir_answers(dirid, dirname@, r),
    ;

    /// Whether `answer` is what the file system answers to `remove` of
    /// `filename` in `dirid`. It is true of every answer unless an
    /// implementation says more.
    open spec fn remove_answers(
        &self,
        dirid: fileid3,
        filename: Seq<u8>,
        answer: Result<(), nfsstat3>,
    ) -> bool {
        true
    }

    /// Removes a file or a directory.
    fn remove(&self, dirid: fileid3, filename: &filename3) -> (r: Result<(), nfsstat3>)
        requires
            self.capabilities_spec() == VFSCapabilities::ReadWrite,
        ensures
            self.remove_answers(dirid, filename@, r),
    ;

    /// Whether `answer` is what the file system answers to `rename` from one
    /// directory and name to another. It is true of every answer unless an
    /// implementation says more.
    open spec fn rename_answers(
        &self,
        from_dirid: fileid3,
        from_filename: Seq<u8>,
        to_dirid: fileid3,
        to_filename: Seq<u8>,
        answer: Result<(), nfsstat3>,
    ) -> bool {
        true
    }

    /// Moves a file from one directory and name to another.
    fn rename(
        &self,
        from_dirid: fileid3,
        from_filename: &filename3,
        to_dirid: fileid3,
        to_filename: &filename3,
    ) -> (r: Result<(), nfsstat3>)
        requires
            self.capabilities_spec() == VFSCapabilities::ReadWrite,
        ensures
            self.rename_answers(from_dirid, from_filename@, to_dirid, to_filename@, r),
    ;

    /// Whether `answer` is what the file system answers to `readdir` of up to
    /// `max_entries` entries of `dirid` behind `start_after`. It is true of
    /// every answer unless an implementation says more.
    open spec fn readdir_answers(
        &self,
        dirid: fileid3,
        start_after: fileid3,
        max_entries: usize,
        answer: Result<ReadDirResult, nfsstat3>,
    ) -> bool {
        true
    }

    /// Up to `max_entries` entries of a directory, in an order that does not
    /// change while the directory does not, starting behind the entry
    /// `start_after` (from the first entry if that is zero).
    fn readdir(&self, dirid: fileid3, start_after: fileid3, max_entries: usize) -> (r: Result<
        ReadDirResult,
        nfsstat3,
    >)
        ensures
            self.readdir_answers(dirid, start_after, max_entries, r),
    ;

    /// As `readdir`, without the attributes: what `readdir` answers to the
    /// same directory, cookie and count, as a plain page.
    fn readdir_simple(&self, dirid: fileid3, start_after: fileid3, count: usize) -> (r: Result<
        ReadDirSimpleResult,
        nfsstat3,
    >)
        ensures
            exists|answer: Result<ReadDirResult, nfsstat3>|
                #[trigger] self.readdir_answers(dirid, start_after, count, answer) && plain_answer(
                    answer,
                    r,
                ),
    {
        let answer = self.readdir(dirid, start_after, count);
        let r = match &answer {
            Ok(result) => Ok(ReadDirSimpleResult::from_readdir_result(result)),
            Err(stat) => Err(*stat),
        };
        assert(self.readdir_answers(dirid, start_after, count, answer) && plain_answer(answer, r));
        r
    }

    /// Whether `answer` is what the file system answers to `symlink` of
    /// `linkname` in `dirid`. It is true of every answer unless an
    /// implementation says more.
    open spec fn symlink_answers(
        &self,
        dirid: fileid3,
        linkname: Seq<u8>,
        symlink: Seq<u8>,
        attr: sattr3,
        answer: Result<(fileid3, fattr3), nfsstat3>,
    ) -> bool {
        true
    }

    /// Makes a symbolic link.
    fn symlink(
        &self,
        dirid: fileid3,
        linkname: &filename3,
        symlink: &nfspath3,
        attr: &sattr3,
    ) -> (r: Result<(fileid3, fattr3), nfsstat3>)
        requires
            self.capabilities_spec() == VFSCapabilities::ReadWrite,
        ensures
            self.symlink_answers(dirid, linkname@, symlink@, *attr, r),
    ;

    /// Whether `answer` is what the file system answers to `readlink` of `id`.
    /// It is true of every answer unless an implementation says more.
    open spec fn readlink_answers(&self, id: fileid3, answer: Result<nfspath3, nfsstat3>) -> bool {
        true
    }

    /// What a symbolic link points to.
    fn readlink(&self, id: fileid3) -> (r: Result<nfspath3, nfsstat3>)
        ensures
            self.readlink_answers(id, r),
    ;

    /// Whether `answer` is what a file system with static information of its
    /// own answers to `fsinfo` of `root_fileid`. It is true of every answer
    /// unless an implementation says more.
    open spec fn fsinfo_answers(
        &self,
        root_fileid: fileid3,
        answer: Result<fsinfo3, nfsstat3>,
    ) -> bool {
        true
    }

    /// Static information on the file system: unless the file system has
    /// its own, what the engine reports of every file system, around the
    /// attributes that `getattr` answers for the root.
    fn fsinfo(&self, root_fileid: fileid3) -> (r: Result<fsinfo3, nfsstat3>)
        ensures
            self.fsinfo_answers(root_fileid, r) || exists|answer: Result<fattr3, nfsstat3>|
                #[trigger] self.getattr_answers(root_fileid, answer) && r == Ok::<
                    fsinfo3,
                    nfsstat3,
                >(standard_fsinfo(attributes_answered(answer))),
        default_ensures
            exists|answer: Result<fattr3, nfsstat3>|
                #[trigger] self.getattr_answers(root_fileid, answer) && r == Ok::<
                    fsinfo3,
                    nfsstat3,
                >(standard_fsinfo(attributes_answered(answer))),
    {
        let answer = self.getattr(root_fileid);
        let dir_attr = match answer {
            Ok(v) => post_op_attr::attributes(v),
            Err(_) => post_op_attr::Void,
        };
        let r = Ok(make_fsinfo(dir_attr));
        assert(self.getattr_answers(root_fileid, answer) && r == Ok::<fsinfo3, nfsstat3>(
            standard_fsinfo(attributes_answered(answer)),
        ));
        r
    }

    /// The opaque handle of a file.
    fn id_to_fh(&self, id: fileid3) -> (fh: nfs_fh3)
        ensures
            fh@ == handle_bytes(self.serverid_spec(), id),
            fh@.len() == 16,
    {
        let serverid = self.serverid();
        make_handle(&serverid, id)
    }

    /// The file that an opaque handle names.
    fn fh_to_id(&self, id: &nfs_fh3) -> (r: Result<fileid3, nfsstat3>)
        ensures
            r == handle_id(self.serverid_spec(), id@),
    {
        let serverid = self.serverid();
        read_handle(&serverid, id)
    }

    /// The file at the end of a path: from the root, one `lookup` for each
    /// component, each in the directory that the one before found, up to
    /// the first that fails. A path without components is the root.
    fn path_to_id(&self, path: &[u8]) -> (r: Result<fileid3, nfsstat3>)
        ensures
            exists|steps: Seq<Result<fileid3, nfsstat3>>|
                {
                    &&& #[trigger] walk_shape(path_components(path@).len() as int, steps)
                    &&& forall|k: int|
                        0 <= k < steps.len() ==> #[trigger] self.lookup_answers(
                            walk_from(self.root_dir_spec(), steps, k),
                            path_components(path@)[k],
                            steps[k],
                        )
                    &&& r == walk_end(self.root_dir_spec(), steps)
                },
    {
        let parts = split_path(path);
        let mut fid = self.root_dir();
        let n: usize = parts.len();
        assert(names_of(parts@).len() == n);
        let ghost root = self.root_dir_spec();
        let ghost comps = path_components(path@);
        let ghost mut steps: Seq<Result<fileid3, nfsstat3>> = Seq::empty();
        let mut i: usize = 0;
        while i < n
            invariant
                i <= n,
                n == parts@.len(),
                comps == path_components(path@),
                comps == names_of(parts@),
                root == self.root_dir_spec(),
                steps.len() == i,
                forall|k: int| 0 <= k < i ==> (#[trigger] steps[k]) is Ok,
                fid == walk_from(root, steps, i as int),
                forall|k: int|
                    0 <= k < i ==> #[trigger] self.lookup_answers(
                        walk_from(root, steps, k),
                        comps[k],
                        steps[k],
                    ),
            decreases n - i,
        {
            let step = self.lookup(fid, &parts[i]);
            proof {
                assert(parts@[i as int]@ == comps[i as int]);
                let before = steps;
                steps = steps.push(step);
                assert forall|k: int| 0 <= k < i + 1 implies #[trigger] self.lookup_answers(
                    walk_from(root, steps, k),
                    comps[k],
                    steps[k],
                ) by {
                    if k < i {
                        assert(steps[k] == before[k]);
                        assert(walk_from(root, steps, k) == walk_from(root, before, k));
                        assert(self.lookup_answers(walk_from(root, before, k), comps[k], before[k]));
                    }
                }
            }
            match step {
                Ok(next) => {
                    fid = next;
                },
                Err(stat) => {
                    assert(walk_shape(comps.len() as int, steps));
                    return Err(stat);
                },
            }
            i = i + 1;
        }
        assert(walk_shape(comps.len() as int, steps));
        Ok(fid)
    }

    /// The identifier of this server instance: eight bytes that differ from
    /// those of every earlier instance.
    fn serverid(&self) -> (id: cookieverf3)
        ensures
            id@ == self.serverid_spec(),
    ;
}


/// Whether `r` is where the walk along `path` ends in the file system `fs`:
/// from the root, what `fs` answered to one `lookup` for each component,
/// each in the directory that the one before found, up to the first that
/// failed.
pub open spec fn walked<F: NFSFileSystem + ?Sized>(
    fs: &F,
    path: Seq<u8>,
    r: Result<fileid3, nfsstat3>,
) -> bool {
    exists|steps: Seq<Result<fileid3, nfsstat3>>|
        {
            &&& #[trigger] walk_shape(path_components(path).len() as int, steps)
            &&& forall|k: int|
                0 <= k < steps.len() ==> #[trigger] fs.lookup_answers(
                    walk_from(fs.root_dir_spec(), steps, k),
                    path_components(path)[k],
                    steps[k],
                )
            &&& r == walk_end(fs.root_dir_spec(), steps)
        }
}

/// A walk along a path without components ends at the root.
pub proof fn lemma_walked_nowhere<F: NFSFileSystem + ?Sized>(
    fs: &F,
    path: Seq<u8>,
    r: Result<fileid3, nfsstat3>,
)
    requires
        walked(fs, path, r),
        path_components(path).len() == 0,
    ensures
        r == Ok::<fileid3, nfsstat3>(fs.root_dir_spec()),
{
}

/// A walk along a path of one component ends with what `lookup` of the
/// component in the root answered.
pub proof fn lemma_walked_one_step<F: NFSFileSystem + ?Sized>(
    fs: &F,
    path: Seq<u8>,
    r: Result<fileid3, nfsstat3>,
)
    requires
        walked(fs, path, r),
        path_components(path).len() == 1,
    ensures
        fs.lookup_answers(fs.root_dir_spec(), path_components(path)[0], r),
{
    let steps = choose|steps: Seq<Result<fileid3, nfsstat3>>|
        {
            &&& #[trigger] walk_shape(path_components(path).len() as int, steps)
            &&& forall|k: int|
                0 <= k < steps.len() ==> #[trigger] fs.lookup_answers(
                    walk_from(fs.root_dir_spec(), steps, k),
                    path_components(path)[k],
                    steps[k],
                )
            &&& r == walk_end(fs.root_dir_spec(), steps)
        };
    assert(steps.len() == 1);
    assert(fs.lookup_answers(
        walk_from(fs.root_dir_spec(), steps, 0),
        path_components(path)[0],
        steps[0],
    ));
}

/// Whether the file system answers to `lookup` of each of the first `n`
/// components, in the directory that stands before it in `ids`, nothing
/// but the file that stands behind that directory in `ids`.
pub open spec fn leads<F: NFSFileSystem + ?Sized>(
    fs: &F,
    ids: Seq<fileid3>,
    components: Seq<Seq<u8>>,
    n: int,
) -> bool {
    forall|k: int, answer: Result<fileid3, nfsstat3>|
        0 <= k < n && #[trigger] fs.lookup_answers(ids[k], components[k], answer) ==> answer
            == Ok::<fileid3, nfsstat3>(ids[k + 1])
}

/// The lookups of a walk find the files of `ids` as far as the file system
/// leads along them.
proof fn lemma_steps_follow<F: NFSFileSystem + ?Sized>(
    fs: &F,
    components: Seq<Seq<u8>>,
    ids: Seq<fileid3>,
    n: int,
    steps: Seq<Result<fileid3, nfsstat3>>,
    k: int,
)
    requires
        ids.len() > n,
        ids[0] == fs.root_dir_spec(),
        leads(fs, ids, components, n),
        forall|j: int|
            0 <= j < steps.len() ==> #[trigger] fs.lookup_answers(
                walk_from(fs.root_dir_spec(), steps, j),
                components[j],
                steps[j],
            ),
        0 <= k < steps.len(),
        k < n,
    ensures
        steps[k] == Ok::<fileid3, nfsstat3>(ids[k + 1]),
        walk_from(fs.root_dir_spec(), steps, k) == ids[k],
    decreases k,
{
    if k > 0 {
        lemma_steps_follow(fs, components, ids, n, steps, k - 1);
    }
    assert(fs.lookup_answers(walk_from(fs.root_dir_spec(), steps, k), components[k], steps[k]));
    assert(fs.lookup_answers(ids[k], components[k], steps[k]));
}

/// A walk along a path ends at the last file of `ids`, where `ids` begins
/// with the root and the file system leads along it: where it answers to
/// `lookup` of each component of the path, in the file before, nothing but
/// the file behind.
pub proof fn lemma_walked_along<F: NFSFileSystem + ?Sized>(
    fs: &F,
    path: Seq<u8>,
    ids: Seq<fileid3>,
    r: Result<fileid3, nfsstat3>,
)
    requires
        walked(fs, path, r),
        ids.len() == path_components(path).len() + 1,
        ids[0] == fs.root_dir_spec(),
        leads(fs, ids, path_components(path), path_components(path).len() as int),
    ensures
        r == Ok::<fileid3, nfsstat3>(ids.last()),
{
    let components = path_components(path);
    let n = components.len() as int;
    let steps = choose|steps: Seq<Result<fileid3, nfsstat3>>|
        {
            &&& #[trigger] walk_shape(path_components(path).len() as int, steps)
            &&& forall|k: int|
                0 <= k < steps.len() ==> #[trigger] fs.lookup_answers(
                    walk_from(fs.root_dir_spec(), steps, k),
                    path_components(path)[k],
                    steps[k],
                )
            &&& r == walk_end(fs.root_dir_spec(), steps)
        };
    if steps.len() > 0 {
        lemma_steps_follow(fs, components, ids, n, steps, steps.len() - 1);
    }
}

/// A walk along a path ends with the failure `stat`, where the file system
/// leads along `ids` from the root and then answers to `lookup` of the
/// next component, in the last file of `ids`, nothing but that failure:
/// the components behind it are not looked at.
pub proof fn lemma_walked_until_failure<F: NFSFileSystem + ?Sized>(
    fs: &F,
    path: Seq<u8>,
    ids: Seq<fileid3>,
    stat: nfsstat3,
    r: Result<fileid3, nfsstat3>,
)
    requires
        walked(fs, path, r),
        0 < ids.len() <= path_components(path).len(),
        ids[0] == fs.root_dir_spec(),
        leads(fs, ids, path_components(path), ids.len() - 1),
        forall|answer: Result<fileid3, nfsstat3>| #[trigger]
            fs.lookup_answers(ids.last(), path_components(path)[ids.len() - 1], answer) ==> answer
                == Err::<fileid3, nfsstat3>(stat),
    ensures
        r == Err::<fileid3, nfsstat3>(stat),
{
    let components = path_components(path);
    let n = ids.len() - 1;
    let steps = choose|steps: Seq<Result<fileid3, nfsstat3>>|
        {
            &&& #[trigger] walk_shape(path_components(path).len() as int, steps)
            &&& forall|k: int|
                0 <= k < steps.len() ==> #[trigger] fs.lookup_answers(
                    walk_from(fs.root_dir_spec(), steps, k),
                    path_components(path)[k],
                    steps[k],
                )
            &&& r == walk_end(fs.root_dir_spec(), steps)
        };
    assert(steps.len() > n) by {
        if 0 < steps.len() <= n {
            lemma_steps_follow(fs, components, ids, n, steps, steps.len() - 1);
        }
    }
    if n > 0 {
        lemma_steps_follow(fs, components, ids, n, steps, n - 1);
    }
    assert(walk_from(fs.root_dir_spec(), steps, n) == ids[n]);
    assert(fs.lookup_answers(walk_from(fs.root_dir_spec(), steps, n), components[n], steps[n]));
    assert(ids.last() == ids[n] && components[n] == path_components(path)[ids.len() - 1]);
    assert(fs.lookup_answers(ids.last(), path_components(path)[ids.len() - 1], steps[n]));
    assert(steps[n] is Err);
    if steps.len() > n + 1 {
        assert(steps[n] is Ok);
    }
}

/// Whether `r` is the static information that is made up for the file
/// system `fs`: what the engine reports of every file system, around the
/// attributes that `fs` answered when asked for those of the root.
pub open spec fn derived_fsinfo<F: NFSFileSystem + ?Sized>(
    fs: &F,
    root_fileid: fileid3,
    r: Result<fsinfo3, nfsstat3>,
) -> bool {
    exists|answer: Result<fattr3, nfsstat3>|
        #[trigger] fs.getattr_answers(root_fileid, answer) && r == Ok::<fsinfo3, nfsstat3>(
            standard_fsinfo(attributes_answered(answer)),
        )
}

} // verus!
