use vstd::prelude::*;

verus! {

// ---------------------------------------------------------------------------
// Archive formats and errors
// ---------------------------------------------------------------------------

/// The container formats a release archive ships in.
#[derive(Clone, Copy, Debug, PartialEq, Eq, Structural)]
pub enum ArchiveType {
    TarGz,
    TarXz,
    Zip,
}

impl ArchiveType {
    /// The file extension of this archive format.
    pub open spec fn ext_seq(self) -> Seq<char> {
        match self {
            ArchiveType::TarGz => "tar.gz"@,
            ArchiveType::TarXz => "tar.xz"@,
            ArchiveType::Zip => "zip"@,
        }
    }

    /// The file extension of this archive format.
    pub fn get_ext(&self) -> (r: &'static str)
        ensures
            r@ == self.ext_seq(),
    {
        match self {
            ArchiveType::TarGz => "tar.gz",
            ArchiveType::TarXz => "tar.xz",
            ArchiveType::Zip => "zip",
        }
    }
}

/// Error from staging an archive into memory.
#[derive(Clone, Copy, Debug, PartialEq, Eq, Structural)]
pub enum ArchiveError {
    /// The byte stream is not a readable archive of the expected format.
    Corrupt,
    /// An entry is neither a directory nor a regular file.
    UnsupportedEntry,
    /// An entry's relative path would escape the extraction root.
    UnsafePath,
}

// ---------------------------------------------------------------------------
// Relative path hygiene
// ---------------------------------------------------------------------------

/// `s` with its trailing slashes removed.
pub open spec fn trim_slashes(s: Seq<char>) -> Seq<char>
    decreases s.len(),
{
    if s.len() > 0 && s.last() == '/' {
        trim_slashes(s.drop_last())
    } else {
        s
    }
}

/// Trimming trailing slashes is idempotent.
pub proof fn lemma_trim_idempotent(s: Seq<char>)
    ensures
        trim_slashes(trim_slashes(s)) == trim_slashes(s),
    decreases s.len(),
{
    if s.len() > 0 && s.last() == '/' {
        lemma_trim_idempotent(s.drop_last());
    }
}

/// A component of `t` starts at `a`: at the front, or right after a slash.
pub open spec fn comp_start(t: Seq<char>, a: int) -> bool {
    0 <= a <= t.len() && (a == 0 || t[a - 1] == '/')
}

/// A component of `t` ends just before `b`: at the back, or at a slash.
pub open spec fn comp_end(t: Seq<char>, b: int) -> bool {
    0 <= b <= t.len() && (b == t.len() || t[b] == '/')
}

/// An empty path component sits at `a` (a leading slash or two adjacent
/// slashes; a trailing slash also matches, so test trimmed paths).
pub open spec fn empty_comp_at(t: Seq<char>, a: int) -> bool {
    comp_start(t, a) && comp_end(t, a)
}

/// The single-dot component `.` sits at `a`.
pub open spec fn dot_comp_at(t: Seq<char>, a: int) -> bool {
    comp_start(t, a) && a < t.len() && t[a] == '.' && comp_end(t, a + 1)
}

/// The parent component `..` sits at `a`.
pub open spec fn dotdot_comp_at(t: Seq<char>, a: int) -> bool {
    comp_start(t, a) && a + 1 < t.len() && t[a] == '.' && t[a + 1] == '.' && comp_end(t, a + 2)
}

/// A relative path is safe to join under an extraction root once its
/// trailing slashes are trimmed: it is nonempty, carries no backslash or
/// drive separator, and no slash-separated component is empty, `.` or
/// `..`. In particular it is not absolute and cannot climb out of the
/// root.
pub open spec fn safe_rel_path(s: Seq<char>) -> bool {
    let t = trim_slashes(s);
    &&& t.len() > 0
    &&& forall|c: int| 0 <= c < t.len() ==> #[trigger] t[c] != '\\' && t[c] != ':'
    &&& forall|a: int| !empty_comp_at(t, a)
    &&& forall|a: int| !dot_comp_at(t, a)
    &&& forall|a: int| !dotdot_comp_at(t, a)
}

/// The destination of a safe relative path `p` under `root`.
pub open spec fn joined(root: Seq<char>, p: Seq<char>) -> Seq<char> {
    root + "/"@ + trim_slashes(p)
}

/// `p` lies directly under `root` through some safe relative path.
pub open spec fn rooted_path(root: Seq<char>, p: Seq<char>) -> bool {
    exists|t: Seq<char>| p == joined(root, t) && safe_rel_path(t)
}

/// Trims trailing slashes from `path` and checks that what remains is a
/// safe relative path; returns the trimmed path exactly when it is.
fn check_and_trim(path: &str) -> (r: Option<String>)
    ensures
        r matches Some(t) ==> safe_rel_path(path@) && t@ == trim_slashes(path@),
        r is None ==> !safe_rel_path(path@),
{
    let n = path.unicode_len();
    proof {
        assert(path@.subrange(0, n as int) =~= path@);
    }
    let mut m: usize = n;
    while m > 0 && path.get_char(m - 1) == '/'
        invariant
            m <= n == path@.len(),
            trim_slashes(path@) == trim_slashes(path@.subrange(0, m as int)),
        decreases m,
    {
        proof {
            let pre = path@.subrange(0, m as int);
            assert(pre.last() == path@[m - 1]);
            assert(pre.drop_last() =~= path@.subrange(0, m - 1));
        }
        m = m - 1;
    }
    let ghost t = trim_slashes(path@);
    proof {
        let pre = path@.subrange(0, m as int);
        if m > 0 {
            assert(pre.last() == path@[m - 1]);
        }
        assert(trim_slashes(pre) == pre);
        assert(t == path@.subrange(0, m as int));
    }
    if m == 0 {
        return None;
    }
    let trimmed = path.substring_char(0, m);
    let mut comp: usize = 0;
    let mut pos: usize = 0;
    while pos < m
        invariant
            0 <= comp <= pos <= m == t.len(),
            t == trimmed@,
            trimmed@ == path@.subrange(0, m as int),
            t == trim_slashes(path@),
            comp_start(t, comp as int),
            forall|x: int| comp <= x < pos ==> t[x] != '/',
            forall|c: int| 0 <= c < pos ==> #[trigger] t[c] != '\\' && t[c] != ':',
            forall|a: int| a < comp ==> !empty_comp_at(t, a),
            forall|a: int| a < comp ==> !dot_comp_at(t, a),
            forall|a: int| a < comp ==> !dotdot_comp_at(t, a),
        decreases m - pos,
    {
        let c = trimmed.get_char(pos);
        if c == '\\' || c == ':' {
            return None;
        }
        if c == '/' {
            if pos == comp {
                proof {
                    assert(empty_comp_at(t, comp as int));
                }
                return None;
            }
            if pos - comp == 1 && trimmed.get_char(comp) == '.' {
                proof {
                    assert(dot_comp_at(t, comp as int));
                }
                return None;
            }
            if pos - comp == 2 && trimmed.get_char(comp) == '.' && trimmed.get_char(comp + 1)
                == '.' {
                proof {
                    assert(dotdot_comp_at(t, comp as int));
                }
                return None;
            }
            proof {
                assert forall|a: int| comp <= a < pos + 1 implies !empty_comp_at(t, a)
                    && !dot_comp_at(t, a) && !dotdot_comp_at(t, a) by {
                    if a > comp {
                        assert(t[a - 1] != '/');
                    }
                }
            }
            comp = pos + 1;
        }
        pos = pos + 1;
    }
    if pos == comp {
        proof {
            assert(empty_comp_at(t, comp as int));
        }
        return None;
    }
    if pos - comp == 1 && trimmed.get_char(comp) == '.' {
        proof {
            assert(dot_comp_at(t, comp as int));
        }
        return None;
    }
    if pos - comp == 2 && trimmed.get_char(comp) == '.' && trimmed.get_char(comp + 1) == '.' {
        proof {
            assert(dotdot_comp_at(t, comp as int));
        }
        return None;
    }
    proof {
        assert forall|a: int| !empty_comp_at(t, a) && !dot_comp_at(t, a) && !dotdot_comp_at(
            t,
            a,
        ) by {
            if comp <= a {
                if a > comp {
                    if comp_start(t, a) {
                        assert(t[a - 1] != '/');
                    }
                }
            }
        }
        assert(safe_rel_path(path@));
    }
    Some(trimmed.to_owned())
}


// ---------------------------------------------------------------------------
// Staging
// ---------------------------------------------------------------------------

/// How an archive entry is classified.
#[derive(Clone, Copy, Debug, PartialEq, Eq, Structural)]
pub enum EntryKind {
    Directory,
    File,
    Unsupported,
}

/// One entry read out of an archive, before staging.
pub struct RawEntry {
    pub path: String,
    pub kind: EntryKind,
    pub data: Vec<u8>,
}

/// The classification a tar type flag byte denotes: `5` (0x35) marks a
/// directory, `0` (0x30) a regular file; everything else (links, devices,
/// fifos) is unsupported.
pub open spec fn tar_kind(flag: u8) -> EntryKind {
    if flag == 0x35 {
        EntryKind::Directory
    } else if flag == 0x30 {
        EntryKind::File
    } else {
        EntryKind::Unsupported
    }
}

/// The classification of a zip entry from its directory and plain-file
/// flags; an entry that is neither (a symlink) is unsupported.
pub open spec fn zip_kind(is_dir: bool, is_file: bool) -> EntryKind {
    if is_dir {
        EntryKind::Directory
    } else if is_file {
        EntryKind::File
    } else {
        EntryKind::Unsupported
    }
}

/// A staged archive: the directories to create and the files to write,
/// each in the order the archive recorded them, held fully in memory
/// before any disk mutation begins.
#[derive(Debug)]
pub struct Archive {
    pub dirs: Vec<String>,
    pub files: Vec<(String, Vec<u8>)>,
}

/// The directory paths of a staged archive.
pub open spec fn dirs_view(a: Archive) -> Seq<Seq<char>> {
    a.dirs@.map(|i: int, d: String| d@)
}

/// The file paths and contents of a staged archive.
pub open spec fn files_view(a: Archive) -> Seq<(Seq<char>, Seq<u8>)> {
    a.files@.map(|i: int, f: (String, Vec<u8>)| (f.0@, f.1@))
}

/// The mathematical view of a raw entry sequence.
pub open spec fn raw_views(s: Seq<RawEntry>) -> Seq<(Seq<char>, EntryKind, Seq<u8>)> {
    s.map(|i: int, e: RawEntry| (e.path@, e.kind, e.data@))
}

/// Stages entries in order under `root`: a directory entry appends its
/// destination to the directory list, a file entry appends destination
/// and data to the file list. The first entry with an unsafe path fails
/// with `UnsafePath`, the first unsupported entry with
/// `UnsupportedEntry`; an unsafe path is reported before the kind.
pub open spec fn stage_entries(root: Seq<char>, es: Seq<(Seq<char>, EntryKind, Seq<u8>)>) -> Result<
    (Seq<Seq<char>>, Seq<(Seq<char>, Seq<u8>)>),
    ArchiveError,
>
    decreases es.len(),
{
    if es.len() == 0 {
        Ok((Seq::empty(), Seq::empty()))
    } else {
        match stage_entries(root, es.drop_last()) {
            Err(e) => Err(e),
            Ok((ds, fs)) => {
                let (p, k, d) = es.last();
                if !safe_rel_path(p) {
                    Err(ArchiveError::UnsafePath)
                } else if k == EntryKind::Unsupported {
                    Err(ArchiveError::UnsupportedEntry)
                } else if k == EntryKind::Directory {
                    Ok((ds.push(joined(root, p)), fs))
                } else {
                    Ok((ds, fs.push((joined(root, p), d))))
                }
            },
        }
    }
}

/// A staging error at any prefix of the entries decides the whole run.
proof fn lemma_stage_err_prefix(root: Seq<char>, es: Seq<(Seq<char>, EntryKind, Seq<u8>)>, k: int)
    requires
        0 <= k <= es.len(),
        stage_entries(root, es.subrange(0, k)) is Err,
    ensures
        stage_entries(root, es) == stage_entries(root, es.subrange(0, k)),
    decreases es.len() - k,
{
    if k < es.len() {
        assert(es.subrange(0, k + 1).drop_last() =~= es.subrange(0, k));
        lemma_stage_err_prefix(root, es, k + 1);
    } else {
        assert(es.subrange(0, k) =~= es);
    }
}

/// Every path a successful staging emits lies under the root through a
/// safe relative path: the traversal defense, stated of the output.
pub proof fn lemma_stage_rooted(root: Seq<char>, es: Seq<(Seq<char>, EntryKind, Seq<u8>)>)
    requires
        stage_entries(root, es) is Ok,
    ensures
        forall|q: int|
            0 <= q < stage_entries(root, es)->Ok_0.0.len() ==> rooted_path(
                root,
                #[trigger] stage_entries(root, es)->Ok_0.0[q],
            ),
        forall|q: int|
            0 <= q < stage_entries(root, es)->Ok_0.1.len() ==> rooted_path(
                root,
                #[trigger] stage_entries(root, es)->Ok_0.1[q].0,
            ),
    decreases es.len(),
{
    if es.len() > 0 {
        lemma_stage_rooted(root, es.drop_last());
        let prev = stage_entries(root, es.drop_last())->Ok_0;
        let (p, k, d) = es.last();
        if k != EntryKind::Unsupported && safe_rel_path(p) {
            lemma_trim_idempotent(p);
            assert(safe_rel_path(trim_slashes(p)));
            assert(joined(root, trim_slashes(p)) == joined(root, p));
            assert(rooted_path(root, joined(root, p)));
        }
    }
}

impl Archive {
    /// The number of staged entries: directories plus files.
    pub fn total_len(&self) -> (r: usize)
        requires
            self.files@.len() + self.dirs@.len() <= usize::MAX,
        ensures
            r == self.files@.len() + self.dirs@.len(),
    {
        self.files.len() + self.dirs.len()
    }

    /// Stages raw entries under `root`, exactly as `stage_entries` lays
    /// them out; fails on the first unsafe or unsupported entry.
    pub fn from_entries(root: &str, entries: Vec<RawEntry>) -> (r: Result<Archive, ArchiveError>)
        ensures
            match stage_entries(root@, raw_views(entries@)) {
                Ok(st) => r matches Ok(a) && dirs_view(a) == st.0 && files_view(a) == st.1,
                Err(e) => r matches Err(e2) && e2 == e,
            },
    {
        let ghost evs = raw_views(entries@);
        let ghost total = entries@.len();
        let mut rest = entries;
        let mut dirs: Vec<String> = Vec::new();
        let mut files: Vec<(String, Vec<u8>)> = Vec::new();
        proof {
            assert(evs.subrange(0, 0) =~= Seq::<(Seq<char>, EntryKind, Seq<u8>)>::empty());
            assert(dirs@.map(|i: int, d: String| d@) =~= Seq::<Seq<char>>::empty());
            assert(files@.map(|i: int, f: (String, Vec<u8>)| (f.0@, f.1@)) =~= Seq::<
                (Seq<char>, Seq<u8>),
            >::empty());
            assert(raw_views(rest@) =~= evs.subrange(0, total as int));
        }
        while rest.len() > 0
            invariant
                evs == raw_views(entries@),
                rest@.len() <= total == evs.len(),
                raw_views(rest@) == evs.subrange(total - rest@.len(), total as int),
                stage_entries(root@, evs.subrange(0, total - rest@.len())) == Ok::<
                    _,
                    ArchiveError,
                >((dirs@.map(|i: int, d: String| d@), files@.map(
                    |i: int, f: (String, Vec<u8>)| (f.0@, f.1@),
                ))),
            decreases rest@.len(),
        {
            let ghost i = total - rest@.len();
            let ghost prev = rest@;
            let ghost dirs0 = dirs@.map(|q: int, d: String| d@);
            let ghost files0 = files@.map(|q: int, f: (String, Vec<u8>)| (f.0@, f.1@));
            let e = rest.remove(0);
            proof {
                assert(prev[0] == e);
                assert(raw_views(prev)[0] == evs.subrange(i, total as int)[0]);
                assert(evs[i] == (e.path@, e.kind, e.data@));
                assert forall|q: int| 0 <= q < rest@.len() implies #[trigger] raw_views(rest@)[q]
                    == evs.subrange(i + 1, total as int)[q] by {
                    assert(rest@[q] == prev[q + 1]);
                    assert(raw_views(prev)[q + 1] == evs.subrange(i, total as int)[q + 1]);
                }
                assert(raw_views(rest@) =~= evs.subrange(i + 1, total as int));
                assert(evs.subrange(0, i + 1).drop_last() =~= evs.subrange(0, i));
                assert(evs.subrange(0, i + 1).last() == evs[i]);
            }
            let trimmed = match check_and_trim(e.path.as_str()) {
                Some(t) => t,
                None => {
                    proof {
                        assert(stage_entries(root@, evs.subrange(0, i + 1)) == Err::<
                            (Seq<Seq<char>>, Seq<(Seq<char>, Seq<u8>)>),
                            _,
                        >(ArchiveError::UnsafePath));
                        lemma_stage_err_prefix(root@, evs, i + 1);
                        assert(evs.subrange(0, total as int) =~= evs);
                    }
                    return Err(ArchiveError::UnsafePath);
                },
            };
            match e.kind {
                EntryKind::Unsupported => {
                    proof {
                        assert(stage_entries(root@, evs.subrange(0, i + 1)) == Err::<
                            (Seq<Seq<char>>, Seq<(Seq<char>, Seq<u8>)>),
                            _,
                        >(ArchiveError::UnsupportedEntry));
                        lemma_stage_err_prefix(root@, evs, i + 1);
                        assert(evs.subrange(0, total as int) =~= evs);
                    }
                    return Err(ArchiveError::UnsupportedEntry);
                },
                EntryKind::Directory => {
                    let mut dest = root.to_owned();
                    dest.append("/");
                    dest.append(trimmed.as_str());
                    proof {
                        assert(dest@ == joined(root@, e.path@));
                    }
                    dirs.push(dest);
                    proof {
                        assert(dirs@.map(|q: int, d: String| d@) =~= dirs0.push(
                            joined(root@, e.path@),
                        ));
                        assert(files@.map(|q: int, f: (String, Vec<u8>)| (f.0@, f.1@))
                            =~= files0);
                        assert(stage_entries(root@, evs.subrange(0, i + 1)) == Ok::<
                            _,
                            ArchiveError,
                        >((dirs0.push(joined(root@, e.path@)), files0)));
                    }
                },
                EntryKind::File => {
                    let mut dest = root.to_owned();
                    dest.append("/");
                    dest.append(trimmed.as_str());
                    proof {
                        assert(dest@ == joined(root@, e.path@));
                    }
                    files.push((dest, e.data));
                    proof {
                        assert(files@.map(|q: int, f: (String, Vec<u8>)| (f.0@, f.1@))
                            =~= files0.push((joined(root@, e.path@), evs[i].2)));
                        assert(dirs@.map(|q: int, d: String| d@) =~= dirs0);
                        assert(stage_entries(root@, evs.subrange(0, i + 1)) == Ok::<
                            _,
                            ArchiveError,
                        >((dirs0, files0.push((joined(root@, e.path@), evs[i].2)))));
                    }
                },
            }
        }
        proof {
            assert(evs.subrange(0, total as int) =~= evs);
        }
        Ok(Archive { dirs, files })
    }
}


// ---------------------------------------------------------------------------
// Format readers (trusted wrappers over the archive crates)
// ---------------------------------------------------------------------------

/// What a gzip stream decompresses to; `None` when it is not valid gzip.
pub uninterp spec fn gunzip_of(b: Seq<u8>) -> Option<Seq<u8>>;

/// What an xz stream decompresses to; `None` when it is not valid xz.
pub uninterp spec fn unxz_of(b: Seq<u8>) -> Option<Seq<u8>>;

/// The entries of an in-memory tar stream — path bytes decoded to text,
/// type flag byte, data — or `None` when the stream does not read back
/// cleanly end to end.
pub uninterp spec fn tar_listing_of(b: Seq<u8>) -> Option<Seq<(Seq<char>, u8, Seq<u8>)>>;

/// The entries of an in-memory zip archive — recorded name, directory
/// flag, plain-file flag, decompressed data — or `None` when the archive
/// does not read back cleanly entry by entry.
pub uninterp spec fn zip_listing_of(b: Seq<u8>) -> Option<Seq<(Seq<char>, bool, bool, Seq<u8>)>>;

/// Relies on flate2's `read::GzDecoder`: inflating a gzip stream held in
/// memory is a function of the bytes alone, and fails exactly when the
/// stream is not valid gzip.
#[verifier::external_body]
fn gunzip(bytes: &Vec<u8>) -> (r: Result<Vec<u8>, ArchiveError>)
    ensures
        r matches Ok(t) ==> gunzip_of(bytes@) == Some(t@),
        r matches Err(e) ==> gunzip_of(bytes@) is None && e == ArchiveError::Corrupt,
{
    let mut decoder = flate2::read::GzDecoder::new(bytes.as_slice());
    let mut out = Vec::new();
    match std::io::Read::read_to_end(&mut decoder, &mut out) {
        Ok(_) => Ok(out),
        Err(_) => Err(ArchiveError::Corrupt),
    }
}

/// Relies on xz2's `read::XzDecoder`: decompressing an xz stream held in
/// memory is a function of the bytes alone, and fails exactly when the
/// stream is not valid xz.
#[verifier::external_body]
fn unxz(bytes: &Vec<u8>) -> (r: Result<Vec<u8>, ArchiveError>)
    ensures
        r matches Ok(t) ==> unxz_of(bytes@) == Some(t@),
        r matches Err(e) ==> unxz_of(bytes@) is None && e == ArchiveError::Corrupt,
{
    let mut decoder = xz2::read::XzDecoder::new(bytes.as_slice());
    let mut out = Vec::new();
    match std::io::Read::read_to_end(&mut decoder, &mut out) {
        Ok(_) => Ok(out),
        Err(_) => Err(ArchiveError::Corrupt),
    }
}

/// Relies on the tar crate's `Archive::entries`: walking all headers of an
/// in-memory stream. A clean walk counts the entries of `tar_listing_of`;
/// reads from a byte slice cannot fail afterwards, so a failure here means
/// the stream has no clean listing at all.
#[verifier::external_body]
fn tar_count(bytes: &Vec<u8>) -> (r: Result<usize, ArchiveError>)
    ensures
        r matches Ok(n) ==> tar_listing_of(bytes@) matches Some(es) && es.len() == n,
        r matches Err(e) ==> tar_listing_of(bytes@) is None && e == ArchiveError::Corrupt,
{
    let mut archive = tar::Archive::new(bytes.as_slice());
    let entries = match archive.entries() {
        Ok(entries) => entries,
        Err(_) => return Err(ArchiveError::Corrupt),
    };
    match entries.collect::<Result<Vec<_>, _>>() {
        Ok(list) => Ok(list.len()),
        Err(_) => Err(ArchiveError::Corrupt),
    }
}

/// Relies on the tar crate: the `i`th entry of an in-memory tar stream —
/// `Entry::path_bytes` decoded lossily to text, the header's type flag
/// byte, and the entry's data — is a function of the stream and `i` alone;
/// past the last entry the iterator is exhausted.
#[verifier::external_body]
fn tar_entry(bytes: &Vec<u8>, i: usize) -> (r: Result<Option<(String, u8, Vec<u8>)>, ArchiveError>)
    ensures
        tar_listing_of(bytes@) matches Some(es) ==> match r {
            Ok(Some(e)) => i < es.len() && es[i as int] == (e.0@, e.1, e.2@),
            Ok(None) => i >= es.len(),
            Err(_) => false,
        },
        r matches Err(e) ==> tar_listing_of(bytes@) is None && e == ArchiveError::Corrupt,
{
    let mut archive = tar::Archive::new(bytes.as_slice());
    let mut entries = match archive.entries() { Ok(es) => es, Err(_) => return Err(ArchiveError::Corrupt) };
    let mut entry = match entries.nth(i) {
        None => return Ok(None),
        Some(Err(_)) => return Err(ArchiveError::Corrupt),
        Some(Ok(entry)) => entry,
    };
    let path = String::from_utf8_lossy(&entry.path_bytes()).into_owned();
    let flag = entry.header().entry_type().as_byte();
    let mut data = Vec::new();
    match std::io::Read::read_to_end(&mut entry, &mut data) {
        Ok(_) => Ok(Some((path, flag, data))),
        Err(_) => Err(ArchiveError::Corrupt),
    }
}

/// Relies on the zip crate's `ZipArchive::new` and `len`: the number of
/// entries in the central directory of an in-memory archive.
#[verifier::external_body]
fn zip_count(bytes: &Vec<u8>) -> (r: Result<usize, ArchiveError>)
    ensures
        r matches Ok(n) ==> (zip_listing_of(bytes@) matches Some(es) ==> es.len() == n),
        r matches Err(e) ==> zip_listing_of(bytes@) is None && e == ArchiveError::Corrupt,
{
    match zip::ZipArchive::new(std::io::Cursor::new(bytes.as_slice())) {
        Ok(archive) => Ok(archive.len()),
        Err(_) => Err(ArchiveError::Corrupt),
    }
}

/// Relies on the zip crate's `by_index`, `name`, `is_dir`, `is_file` and
/// the entry's `Read` impl: the `i`th entry of an in-memory archive is a
/// function of the bytes and `i` alone; an index past the central
/// directory reports `FileNotFound`.
#[verifier::external_body]
fn zip_entry(bytes: &Vec<u8>, i: usize) -> (r: Result<
    Option<(String, bool, bool, Vec<u8>)>,
    ArchiveError,
>)
    ensures
        zip_listing_of(bytes@) matches Some(es) ==> match r {
            Ok(Some(e)) => i < es.len() && es[i as int] == (e.0@, e.1, e.2, e.3@),
            Ok(None) => i >= es.len(),
            Err(_) => false,
        },
        r matches Err(e) ==> zip_listing_of(bytes@) is None && e == ArchiveError::Corrupt,
{
    let cursor = std::io::Cursor::new(bytes.as_slice());
    let mut archive = match zip::ZipArchive::new(cursor) { Ok(a) => a, Err(_) => return Err(ArchiveError::Corrupt) };
    let mut file = match archive.by_index(i) {
        Ok(file) => file,
        Err(zip::result::ZipError::FileNotFound) => return Ok(None),
        Err(_) => return Err(ArchiveError::Corrupt),
    };
    let (name, is_dir, is_file) = (file.name().to_owned(), file.is_dir(), file.is_file());
    let mut data = Vec::new();
    match std::io::Read::read_to_end(&mut file, &mut data) {
        Ok(_) => Ok(Some((name, is_dir, is_file, data))),
        Err(_) => Err(ArchiveError::Corrupt),
    }
}

// ---------------------------------------------------------------------------
// Decompressor
// ---------------------------------------------------------------------------

/// Tar entries under the library's classification of type flags.
pub open spec fn tar_views(ts: Seq<(Seq<char>, u8, Seq<u8>)>) -> Seq<
    (Seq<char>, EntryKind, Seq<u8>),
> {
    ts.map(|i: int, t: (Seq<char>, u8, Seq<u8>)| (t.0, tar_kind(t.1), t.2))
}

/// Zip entries under the library's classification of the entry flags.
pub open spec fn zip_views(zs: Seq<(Seq<char>, bool, bool, Seq<u8>)>) -> Seq<
    (Seq<char>, EntryKind, Seq<u8>),
> {
    zs.map(|i: int, z: (Seq<char>, bool, bool, Seq<u8>)| (z.0, zip_kind(z.1, z.2), z.3))
}

/// The classified entries a byte stream holds under a format: the zip
/// listing itself, or the tar listing of the gzip- or xz-decompressed
/// stream; `None` when any layer fails to read back.
pub open spec fn staged_of(format: ArchiveType, bytes: Seq<u8>) -> Option<
    Seq<(Seq<char>, EntryKind, Seq<u8>)>,
> {
    match format {
        ArchiveType::Zip => match zip_listing_of(bytes) {
            Some(zs) => Some(zip_views(zs)),
            None => None,
        },
        ArchiveType::TarGz => match gunzip_of(bytes) {
            Some(t) => match tar_listing_of(t) {
                Some(ts) => Some(tar_views(ts)),
                None => None,
            },
            None => None,
        },
        ArchiveType::TarXz => match unxz_of(bytes) {
            Some(t) => match tar_listing_of(t) {
                Some(ts) => Some(tar_views(ts)),
                None => None,
            },
            None => None,
        },
    }
}

/// The classification of a tar type flag byte.
fn classify_tar(flag: u8) -> (r: EntryKind)
    ensures
        r == tar_kind(flag),
{
    if flag == 0x35 {
        EntryKind::Directory
    } else if flag == 0x30 {
        EntryKind::File
    } else {
        EntryKind::Unsupported
    }
}

/// The classification of a zip entry's flags.
fn classify_zip(is_dir: bool, is_file: bool) -> (r: EntryKind)
    ensures
        r == zip_kind(is_dir, is_file),
{
    if is_dir {
        EntryKind::Directory
    } else if is_file {
        EntryKind::File
    } else {
        EntryKind::Unsupported
    }
}

/// Holds downloaded archive bytes and stages them into an `Archive`.
pub struct Decompressor {
    bytes: Vec<u8>,
}

impl Decompressor {
    /// The bytes this decompressor was given.
    pub closed spec fn view(&self) -> Seq<u8> {
        self.bytes@
    }

    pub fn new(bytes: Vec<u8>) -> (r: Self)
        ensures
            r@ == bytes@,
    {
        Decompressor { bytes }
    }

    /// Reads the raw entries of a tar stream in order.
    fn tar_entries(tar_bytes: &Vec<u8>) -> (r: Result<Vec<RawEntry>, ArchiveError>)
        ensures
            tar_listing_of(tar_bytes@) matches Some(ts) ==> r matches Ok(es) && raw_views(es@)
                == tar_views(ts),
    {
        let n = match tar_count(tar_bytes) {
            Ok(n) => n,
            Err(e) => return Err(e),
        };
        let mut entries: Vec<RawEntry> = Vec::new();
        let mut i: usize = 0;
        while i < n
            invariant
                i <= n,
                tar_listing_of(tar_bytes@) matches Some(ts) ==> ts.len() == n && raw_views(
                    entries@,
                ) == tar_views(ts).subrange(0, i as int),
            decreases n - i,
        {
            match tar_entry(tar_bytes, i) {
                Ok(Some(e)) => {
                    let kind = classify_tar(e.1);
                    let ghost entries0 = entries@;
                    entries.push(RawEntry { path: e.0, kind, data: e.2 });
                    proof {
                        if let Some(ts) = tar_listing_of(tar_bytes@) {
                            assert(raw_views(entries@) =~= raw_views(entries0).push(
                                tar_views(ts)[i as int],
                            ));
                            assert(raw_views(entries@) =~= tar_views(ts).subrange(0, i + 1));
                        }
                    }
                },
                Ok(None) => {
                    return Err(ArchiveError::Corrupt);
                },
                Err(e) => {
                    return Err(e);
                },
            }
            i = i + 1;
        }
        proof {
            if let Some(ts) = tar_listing_of(tar_bytes@) {
                assert(tar_views(ts).subrange(0, n as int) =~= tar_views(ts));
            }
        }
        Ok(entries)
    }

    /// Reads the raw entries of a zip archive in order.
    fn zip_entries(bytes: &Vec<u8>) -> (r: Result<Vec<RawEntry>, ArchiveError>)
        ensures
            zip_listing_of(bytes@) matches Some(zs) ==> r matches Ok(es) && raw_views(es@)
                == zip_views(zs),
    {
        let n = match zip_count(bytes) {
            Ok(n) => n,
            Err(e) => return Err(e),
        };
        let mut entries: Vec<RawEntry> = Vec::new();
        let mut i: usize = 0;
        while i < n
            invariant
                i <= n,
                zip_listing_of(bytes@) matches Some(zs) ==> zs.len() == n && raw_views(entries@)
                    == zip_views(zs).subrange(0, i as int),
            decreases n - i,
        {
            match zip_entry(bytes, i) {
                Ok(Some(e)) => {
                    let kind = classify_zip(e.1, e.2);
                    let ghost entries0 = entries@;
                    entries.push(RawEntry { path: e.0, kind, data: e.3 });
                    proof {
                        if let Some(zs) = zip_listing_of(bytes@) {
                            assert(raw_views(entries@) =~= raw_views(entries0).push(
                                zip_views(zs)[i as int],
                            ));
                            assert(raw_views(entries@) =~= zip_views(zs).subrange(0, i + 1));
                        }
                    }
                },
                Ok(None) => {
                    return Err(ArchiveError::Corrupt);
                },
                Err(e) => {
                    return Err(e);
                },
            }
            i = i + 1;
        }
        proof {
            if let Some(zs) = zip_listing_of(bytes@) {
                assert(zip_views(zs).subrange(0, n as int) =~= zip_views(zs));
            }
        }
        Ok(entries)
    }

    /// Stages the held bytes into an in-memory `Archive` under `root`,
    /// reading them as `format` directs. When every layer of the stream
    /// reads back cleanly, the result is exactly what `stage_entries`
    /// lays out for the stream's entries — including the staging errors,
    /// if an entry is unsafe or unsupported. Whatever was read, a
    /// successful result only ever holds paths led under `root` by a safe
    /// relative path.
    pub fn decompress_into_mem(self, root: &str, format: &ArchiveType) -> (r: Result<
        Archive,
        ArchiveError,
    >)
        ensures
            staged_of(*format, self@) matches Some(es) ==> match stage_entries(root@, es) {
                Ok(st) => r matches Ok(a) && dirs_view(a) == st.0 && files_view(a) == st.1,
                Err(e) => r matches Err(e2) && e2 == e,
            },
            r matches Ok(a) ==> (forall|q: int|
                0 <= q < dirs_view(a).len() ==> rooted_path(root@, #[trigger] dirs_view(a)[q]))
                && (forall|q: int|
                0 <= q < files_view(a).len() ==> rooted_path(
                    root@,
                    #[trigger] files_view(a)[q].0,
                )),
    {
        let entries = match format {
            ArchiveType::Zip => Self::zip_entries(&self.bytes),
            ArchiveType::TarGz => {
                match gunzip(&self.bytes) {
                    Ok(tar_bytes) => Self::tar_entries(&tar_bytes),
                    Err(e) => Err(e),
                }
            },
            ArchiveType::TarXz => {
                match unxz(&self.bytes) {
                    Ok(tar_bytes) => Self::tar_entries(&tar_bytes),
                    Err(e) => Err(e),
                }
            },
        };
        let entries = match entries {
            Ok(entries) => entries,
            Err(e) => return Err(e),
        };
        let r = Archive::from_entries(root, entries);
        proof {
            if r is Ok {
                lemma_stage_rooted(root@, raw_views(entries@));
            }
        }
        r
    }
}


// ---------------------------------------------------------------------------
// Materialization
// ---------------------------------------------------------------------------

/// One disk operation of materializing a staged archive.
pub enum FsOp {
    /// Create a directory (and any missing parents); existing directories
    /// are left alone.
    CreateDir(String),
    /// Write a file's full content in a single whole-file write,
    /// replacing any previous content.
    WriteFile(String, Vec<u8>),
}

/// The set of directories present after running `ops` in order, starting
/// from the directories `ds`.
pub open spec fn apply_ops_dirs(ds: Set<Seq<char>>, ops: Seq<FsOp>) -> Set<Seq<char>>
    decreases ops.len(),
{
    if ops.len() == 0 {
        ds
    } else {
        let prev = apply_ops_dirs(ds, ops.drop_last());
        match ops.last() {
            FsOp::CreateDir(d) => prev.insert(d@),
            FsOp::WriteFile(p, b) => prev,
        }
    }
}

/// The file contents present after running `ops` in order, starting from
/// the files `fs`; a write replaces whatever a path held.
pub open spec fn apply_ops_files(fs: Map<Seq<char>, Seq<u8>>, ops: Seq<FsOp>) -> Map<
    Seq<char>,
    Seq<u8>,
>
    decreases ops.len(),
{
    if ops.len() == 0 {
        fs
    } else {
        let prev = apply_ops_files(fs, ops.drop_last());
        match ops.last() {
            FsOp::CreateDir(d) => prev,
            FsOp::WriteFile(p, b) => prev.insert(p@, b@),
        }
    }
}

/// The state the operations produce does not depend on which directories
/// or files already existed at the paths they touch.
proof fn lemma_apply_ops_closed(
    ds: Set<Seq<char>>,
    fs: Map<Seq<char>, Seq<u8>>,
    ops: Seq<FsOp>,
)
    ensures
        apply_ops_dirs(ds, ops) == ds.union(apply_ops_dirs(Set::empty(), ops)),
        apply_ops_files(fs, ops) == fs.union_prefer_right(
            apply_ops_files(Map::empty(), ops),
        ),
    decreases ops.len(),
{
    if ops.len() == 0 {
        assert(apply_ops_dirs(ds, ops) =~= ds.union(apply_ops_dirs(Set::empty(), ops)));
        assert(apply_ops_files(fs, ops) =~= fs.union_prefer_right(
            apply_ops_files(Map::empty(), ops),
        ));
    } else {
        lemma_apply_ops_closed(ds, fs, ops.drop_last());
        match ops.last() {
            FsOp::CreateDir(d) => {
                assert(apply_ops_dirs(ds, ops) =~= ds.union(
                    apply_ops_dirs(Set::empty(), ops),
                ));
                assert(apply_ops_files(fs, ops) =~= fs.union_prefer_right(
                    apply_ops_files(Map::empty(), ops),
                ));
            },
            FsOp::WriteFile(p, b) => {
                assert(apply_ops_dirs(ds, ops) =~= ds.union(
                    apply_ops_dirs(Set::empty(), ops),
                ));
                assert(apply_ops_files(fs, ops) =~= fs.union_prefer_right(
                    apply_ops_files(Map::empty(), ops),
                ));
            },
        }
    }
}

/// Materializing the same operations twice in a row leaves exactly the
/// directories and file contents one materialization leaves: the write
/// step is idempotent, whatever state it starts from.
pub proof fn lemma_materialize_idempotent(
    ds: Set<Seq<char>>,
    fs: Map<Seq<char>, Seq<u8>>,
    ops: Seq<FsOp>,
)
    ensures
        apply_ops_dirs(apply_ops_dirs(ds, ops), ops) == apply_ops_dirs(ds, ops),
        apply_ops_files(apply_ops_files(fs, ops), ops) == apply_ops_files(fs, ops),
{
    let ds1 = apply_ops_dirs(ds, ops);
    let fs1 = apply_ops_files(fs, ops);
    lemma_apply_ops_closed(ds, fs, ops);
    lemma_apply_ops_closed(ds1, fs1, ops);
    assert(ds1.union(apply_ops_dirs(Set::empty(), ops)) =~= ds1);
    assert(fs1.union_prefer_right(apply_ops_files(Map::empty(), ops)) =~= fs1);
}

impl Archive {
    /// The ordered disk operations that materialize this archive: every
    /// recorded directory in recorded order, then every recorded file in
    /// recorded order, each as a single whole-file write.
    pub fn materialize_ops(self) -> (r: Vec<FsOp>)
        requires
            self.dirs@.len() + self.files@.len() <= usize::MAX,
        ensures
            r@.len() == dirs_view(self).len() + files_view(self).len(),
            forall|q: int|
                0 <= q < dirs_view(self).len() ==> (#[trigger] r@[q] matches FsOp::CreateDir(
                    d,
                ) && d@ == dirs_view(self)[q]),
            forall|q: int|
                0 <= q < files_view(self).len() ==> (#[trigger] r@[dirs_view(self).len() + q]
                    matches FsOp::WriteFile(p, b) && p@ == files_view(self)[q].0 && b@
                    == files_view(self)[q].1),
    {
        let ghost dv = dirs_view(self);
        let ghost fv = files_view(self);
        let mut ops: Vec<FsOp> = Vec::new();
        let mut dirs = self.dirs;
        let mut files = self.files;
        let ghost nd = dirs@.len();
        while dirs.len() > 0
            invariant
                dirs@.len() <= nd == dv.len(),
                forall|q: int| 0 <= q < dirs@.len() ==> #[trigger] dirs@[q]@ == dv[nd - dirs@.len()
                    + q],
                ops@.len() == nd - dirs@.len(),
                forall|q: int|
                    0 <= q < ops@.len() ==> (#[trigger] ops@[q] matches FsOp::CreateDir(d) && d@
                        == dv[q]),
            decreases dirs@.len(),
        {
            let ghost prev = dirs@;
            let d = dirs.remove(0);
            ops.push(FsOp::CreateDir(d));
        }
        let ghost nf = files@.len();
        while files.len() > 0
            invariant
                files@.len() <= nf == fv.len(),
                forall|q: int| 0 <= q < files@.len() ==> #[trigger] files@[q].0@ == fv[nf
                    - files@.len() + q].0 && files@[q].1@ == fv[nf - files@.len() + q].1,
                ops@.len() == nd + nf - files@.len(),
                nd == dv.len(),
                forall|q: int|
                    0 <= q < nd ==> (#[trigger] ops@[q] matches FsOp::CreateDir(d) && d@
                        == dv[q]),
                forall|q: int|
                    nd <= q < ops@.len() ==> (#[trigger] ops@[q] matches FsOp::WriteFile(p, b)
                        && p@ == fv[q - nd].0 && b@ == fv[q - nd].1),
            decreases files@.len(),
        {
            let f = files.remove(0);
            ops.push(FsOp::WriteFile(f.0, f.1));
        }
        ops
    }
}

} // verus!
