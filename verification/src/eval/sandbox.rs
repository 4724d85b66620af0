//! The capability sandbox: lexical path resolution below a fixed source root
//! for comptime file reads, and the capture ledger that records every read
//! with its SHA-256 digest and length.
//!
//! The file-system half (canonicalizing the root, following symlinks of a
//! path that exists, reading the file) is left to the caller; what is decided
//! here is whether a path, taken lexically, stays inside the root, which
//! segments below the root it names, which slice of a read file `embed`
//! keeps, and which format `import` parses.
use crate::eval::text::{dec_digits, push_decimal_u128, push_signed_decimal, signed_dec};
use sha2::{Digest, Sha256};
use vstd::prelude::*;

verus! {

/// SHA-256 of a byte string, as the `sha2` crate computes it.
pub uninterp spec fn sha256_of(data: Seq<u8>) -> Seq<u8>;

/// Computes SHA-256 with `sha2::Sha256` (`new`, `update`, `finalize`). Trusted:
/// the digest equals [`sha256_of`] of the input bytes; a 32-byte array by its
/// type.
#[verifier::external_body]
fn sha256(bytes: &[u8]) -> (r: [u8; 32])
    ensures
        r@ == sha256_of(bytes@),
{
    let mut hasher = Sha256::new();
    hasher.update(bytes);
    hasher.finalize().into()
}

/// One recorded comptime file read: the resolved path, the SHA-256 digest of
/// the bytes read, and their length.
#[derive(Clone, Debug, PartialEq, Eq)]
pub struct CaptureEdge {
    /// The resolved path that was read.
    pub path: String,
    /// SHA-256 digest of the file's exact bytes at read time.
    pub hash: [u8; 32],
    /// The file's byte length.
    pub len: u64,
}

/// The append-only record of comptime file reads.
#[derive(Debug)]
pub struct CaptureLedger {
    pub captures: Vec<CaptureEdge>,
}

impl CaptureLedger {
    /// An empty ledger.
    pub fn new() -> (l: Self)
        ensures
            l.captures@.len() == 0,
    {
        CaptureLedger { captures: Vec::new() }
    }

    /// Record a comptime file read: appends an edge with `path`, the SHA-256
    /// digest of `bytes` and their length, leaving earlier edges alone.
    pub fn record_capture(&mut self, path: &str, bytes: &[u8])
        ensures
            final(self).captures@.len() == old(self).captures@.len() + 1,
            final(self).captures@.drop_last() == old(self).captures@,
            final(self).captures@.last().path@ == path@,
            final(self).captures@.last().hash@ == sha256_of(bytes@),
            final(self).captures@.last().len == bytes@.len(),
    {
        let hash = sha256(bytes);
        let edge = CaptureEdge { path: path.to_owned(), hash, len: bytes.len() as u64 };
        self.captures.push(edge);
        assert(self.captures@.drop_last() =~= old(self).captures@);
    }
}

/// A component of a path, as `std::path::Path::components` yields it.
#[derive(Clone, Debug, PartialEq, Eq)]
pub enum PathPart {
    /// A platform prefix (`C:` and the like).
    Prefix,
    /// The root directory.
    RootDir,
    /// `.`
    CurDir,
    /// `..`
    ParentDir,
    /// A named file or directory.
    Normal(String),
}

/// Why a comptime file read was refused.
#[derive(Clone, Copy, Debug, PartialEq, Eq, Structural)]
pub enum SandboxError {
    /// No source directory to resolve against.
    NoRoot,
    /// The path would leave the source directory.
    PathEscape,
}

/// The diagnostic text of a refusal.
pub open spec fn sandbox_message(e: SandboxError) -> Seq<char> {
    match e {
        SandboxError::NoRoot => "[sandbox.no-root] embed/import needs a source directory to resolve paths against"@,
        SandboxError::PathEscape => "[sandbox.path-escape] embed/import path must stay within the source directory"@,
    }
}

impl SandboxError {
    /// The diagnostic text of the refusal.
    pub fn message(self) -> (r: &'static str)
        ensures
            r@ == sandbox_message(self),
    {
        match self {
            SandboxError::NoRoot => "[sandbox.no-root] embed/import needs a source directory to resolve paths against",
            SandboxError::PathEscape => "[sandbox.path-escape] embed/import path must stay within the source directory",
        }
    }
}

/// Whether a segment is a plain name: not empty, `.` or `..`.
pub open spec fn plain_segment(s: Seq<char>) -> bool {
    s.len() > 0 && s != "."@ && s != ".."@
}

/// A simple file name: non-empty, not `.` or `..`, made only of ASCII
/// letters, digits, `_`, `-` and `.` (so no separator, no root and no
/// platform prefix on any platform).
pub open spec fn simple_name(s: Seq<char>) -> bool {
    &&& s.len() > 0
    &&& s != "."@
    &&& s != ".."@
    &&& forall|i: int|
        0 <= i < s.len() ==> (('a' <= #[trigger] s[i] <= 'z') || ('A' <= s[i] <= 'Z') || ('0' <= s[i] <= '9')
            || s[i] == '_' || s[i] == '-' || s[i] == '.')
}

/// Splits a path into its components with `std::path::Path::components`.
/// Trusted: a `Normal` component is a plain name (repeated separators and
/// `.`/`..` never come back as `Normal`), and a simple file name (see
/// [`simple_name`]) is its own single `Normal` component. How other paths
/// split depends on the platform's separator and prefix rules, so nothing
/// more is stated.
#[verifier::external_body]
fn path_parts(path: &str) -> (r: Vec<PathPart>)
    ensures
        forall|i: int| 0 <= i < r@.len() ==> (#[trigger] r@[i] matches PathPart::Normal(s) ==> plain_segment(s@)),
        simple_name(path@) ==> r@.len() == 1,
        simple_name(path@) ==> r@[0] is Normal,
        simple_name(path@) ==> r@[0]->Normal_0@ == path@,
{
    std::path::Path::new(path).components().map(|c| match c {
        std::path::Component::Prefix(_) => PathPart::Prefix,
        std::path::Component::RootDir => PathPart::RootDir,
        std::path::Component::CurDir => PathPart::CurDir,
        std::path::Component::ParentDir => PathPart::ParentDir,
        std::path::Component::Normal(s) => PathPart::Normal(s.to_string_lossy().into_owned()),
    }).collect()
}

/// Whether a path is absolute, by `std::path::Path::is_absolute`. Trusted:
/// a simple file name (no root and no prefix) is not absolute; for other
/// paths the answer follows the platform's rules and is not stated.
#[verifier::external_body]
fn path_is_absolute(path: &str) -> (r: bool)
    ensures
        simple_name(path@) ==> !r,
{
    std::path::Path::new(path).is_absolute()
}

/// The segments below the root the first `n` components reach, walking them
/// lexically: a name descends, `..` climbs back (and `None` when it would
/// climb above the root), anything else stays put.
pub open spec fn walk_parts(parts: Seq<PathPart>, n: int) -> Option<Seq<Seq<char>>>
    decreases n,
{
    if n <= 0 {
        Some(Seq::empty())
    } else {
        match walk_parts(parts, n - 1) {
            None => None,
            Some(st) => match parts[n - 1] {
                PathPart::ParentDir => if st.len() == 0 {
                    None
                } else {
                    Some(st.drop_last())
                },
                PathPart::Normal(s) => Some(st.push(s@)),
                _ => Some(st),
            },
        }
    }
}

/// Walk a path's components lexically below the root: a name descends, `..`
/// climbs back, `.` and root/prefix markers stay put. A `..` that would climb
/// above the root is a [`SandboxError::PathEscape`].
pub fn walk_components(parts: &[PathPart]) -> (r: Result<Vec<String>, SandboxError>)
    ensures
        match walk_parts(parts@, parts@.len() as int) {
            Some(st) => r matches Ok(v) && v@.map_values(|s: String| s@) == st,
            None => r == Err::<Vec<String>, SandboxError>(SandboxError::PathEscape),
        },
{
    let mut stack: Vec<String> = Vec::new();
    let mut i: usize = 0;
    while i < parts.len()
        invariant
            i <= parts@.len(),
            walk_parts(parts@, i as int) == Some(stack@.map_values(|s: String| s@)),
        decreases parts@.len() - i,
    {
        let ghost before = stack@.map_values(|s: String| s@);
        match &parts[i] {
            PathPart::ParentDir => {
                if stack.len() == 0 {
                    proof {
                        lemma_walk_none_persists(parts@, i + 1, parts@.len() as int);
                    }
                    return Err(SandboxError::PathEscape);
                }
                stack.pop();
                assert(stack@.map_values(|s: String| s@) =~= before.drop_last());
            },
            PathPart::Normal(s) => {
                stack.push(s.as_str().to_owned());
                assert(stack@.map_values(|s: String| s@) =~= before.push(parts@[i as int]->Normal_0@));
            },
            _ => {},
        }
        i = i + 1;
    }
    Ok(stack)
}

proof fn lemma_walk_none_persists(parts: Seq<PathPart>, n: int, m: int)
    requires
        n <= m,
        walk_parts(parts, n) is None,
    ensures
        walk_parts(parts, m) is None,
    decreases m - n,
{
    if n < m {
        lemma_walk_none_persists(parts, n, m - 1);
    }
}

/// Every segment a walk reaches is a `Normal` component's name.
proof fn lemma_walk_segments(parts: Seq<PathPart>, n: int)
    requires
        n <= parts.len(),
        forall|i: int| 0 <= i < parts.len() ==> (#[trigger] parts[i] matches PathPart::Normal(s) ==> plain_segment(s@)),
    ensures
        walk_parts(parts, n) matches Some(st) ==> forall|j: int| 0 <= j < st.len() ==> plain_segment(#[trigger] st[j]),
    decreases n,
{
    if n > 0 {
        lemma_walk_segments(parts, n - 1);
        if let Some(st) = walk_parts(parts, n - 1) {
            if let PathPart::Normal(s) = parts[n - 1] {
                assert(plain_segment(s@));
                assert forall|j: int| 0 <= j < st.len() + 1 implies plain_segment(#[trigger] st.push(s@)[j]) by {
                    if j < st.len() {
                        assert(st.push(s@)[j] == st[j]);
                    }
                }
            }
        }
    }
}

/// The plain view of a resolution's result.
pub open spec fn resolution_view(r: Result<Vec<String>, SandboxError>) -> Result<Seq<Seq<char>>, SandboxError> {
    match r {
        Ok(v) => Ok(v@.map_values(|s: String| s@)),
        Err(e) => Err(e),
    }
}

/// What a path resolves to, given whether the platform calls it absolute
/// and the components it splits into: an absolute path is refused, and so
/// is one whose `..`s climb above the root; otherwise the segments below the
/// root it names.
pub open spec fn from_parts_spec(is_absolute: bool, parts: Seq<PathPart>) -> Result<Seq<Seq<char>>, SandboxError> {
    if is_absolute {
        Err(SandboxError::PathEscape)
    } else {
        match walk_parts(parts, parts.len() as int) {
            Some(st) => Ok(st),
            None => Err(SandboxError::PathEscape),
        }
    }
}

/// Resolve a path below the root from what the platform said of it: whether
/// it is absolute and its components (see [`from_parts_spec`]).
pub fn resolve_from_parts(is_absolute: bool, parts: &[PathPart]) -> (r: Result<Vec<String>, SandboxError>)
    ensures
        resolution_view(r) == from_parts_spec(is_absolute, parts@),
{
    if is_absolute {
        return Err(SandboxError::PathEscape);
    }
    walk_components(parts)
}

/// Resolve a comptime file-read `path` lexically below the source root. No
/// root is [`SandboxError::NoRoot`]. Otherwise the path is handed, unchanged,
/// to the platform's absolute-path test and component split, and the result
/// is [`from_parts_spec`] of their answers: an absolute path, or one whose
/// `..` components climb above the root, is [`SandboxError::PathEscape`]; on
/// success, the segments below the root, each a plain name. A simple file
/// name (see [`simple_name`]) always resolves to itself.
pub fn resolve_sandbox_path(root: Option<&str>, path: &str) -> (r: Result<Vec<String>, SandboxError>)
    ensures
        root is None ==> r == Err::<Vec<String>, SandboxError>(SandboxError::NoRoot),
        root is Some ==> exists|abs: bool, parts: Seq<PathPart>|
            {
                &&& resolution_view(r) == from_parts_spec(abs, parts)
                &&& forall|i: int| 0 <= i < parts.len() ==> (#[trigger] parts[i] matches PathPart::Normal(s) ==> plain_segment(s@))
                &&& simple_name(path@) ==> !abs && parts.len() == 1 && (parts[0] matches PathPart::Normal(s) && s@ == path@)
            },
        root is Some ==> match r {
            Ok(segs) => forall|j: int| 0 <= j < segs@.len() ==> plain_segment(#[trigger] segs@[j]@),
            Err(e) => e == SandboxError::PathEscape,
        },
        root is Some && simple_name(path@) ==> resolution_view(r) == Ok::<Seq<Seq<char>>, SandboxError>(seq![path@]),
{
    if root.is_none() {
        return Err(SandboxError::NoRoot);
    }
    let abs = path_is_absolute(path);
    let parts = path_parts(path);
    let r = resolve_from_parts(abs, parts.as_slice());
    proof {
        lemma_walk_segments(parts@, parts@.len() as int);
        if r is Ok {
            assert forall|j: int| 0 <= j < r->Ok_0@.len() implies plain_segment(#[trigger] r->Ok_0@[j]@) by {
                assert(r->Ok_0@.map_values(|s: String| s@)[j] == r->Ok_0@[j]@);
            }
        }
        if simple_name(path@) {
            assert(walk_parts(parts@, 0) == Some(Seq::<Seq<char>>::empty()));
            assert(walk_parts(parts@, 1) == Some(Seq::<Seq<char>>::empty().push(path@)));
            assert(seq![path@] =~= Seq::<Seq<char>>::empty().push(path@));
        }
        assert(resolution_view(r) == from_parts_spec(abs, parts@));
        assert(forall|i: int| 0 <= i < parts@.len() ==> (#[trigger] parts@[i] matches PathPart::Normal(s) ==> plain_segment(s@)));
    }
    r
}

/// The running depth below the root after the first `k` components: names
/// minus `..`s.
pub open spec fn climb_depth(parts: Seq<PathPart>, k: int) -> int
    decreases k,
{
    if k <= 0 {
        0
    } else {
        climb_depth(parts, k - 1) + match parts[k - 1] {
            PathPart::ParentDir => -1int,
            PathPart::Normal(_) => 1int,
            _ => 0int,
        }
    }
}

/// A path is refused exactly when, at some point, its `..`s outnumber the
/// names before them; otherwise it resolves to as many segments as its final
/// depth.
pub proof fn law_escape_iff_climbs_above_root(parts: Seq<PathPart>, n: int)
    requires
        0 <= n <= parts.len(),
    ensures
        walk_parts(parts, n) is None <==> exists|k: int| 0 <= k <= n && #[trigger] climb_depth(parts, k) < 0,
        walk_parts(parts, n) matches Some(st) ==> st.len() == climb_depth(parts, n),
    decreases n,
{
    if n > 0 {
        law_escape_iff_climbs_above_root(parts, n - 1);
        match walk_parts(parts, n - 1) {
            None => {
                let k = choose|k: int| 0 <= k <= n - 1 && #[trigger] climb_depth(parts, k) < 0;
                assert(0 <= k <= n && climb_depth(parts, k) < 0);
            },
            Some(st) => {
                assert forall|k: int| 0 <= k <= n - 1 implies #[trigger] climb_depth(parts, k) >= 0 by {}
                if walk_parts(parts, n) is None {
                    assert(climb_depth(parts, n) < 0);
                } else {
                    assert forall|k: int| 0 <= k <= n implies #[trigger] climb_depth(parts, k) >= 0 by {}
                }
            },
        }
    }
}

/// The `[embed.range]` refusal of a `skip` past the end of the file.
pub open spec fn skip_past_end_message(skip: u64, file_len: nat) -> Seq<char> {
    "[embed.range] embed skip="@ + dec_digits(skip as nat) + " exceeds file length "@ + dec_digits(file_len)
}

/// The `[embed.range]` refusal of a `skip`/`len` slice past the end of the
/// file.
pub open spec fn slice_past_end_message(skip: u64, len: u64, file_len: nat) -> Seq<char> {
    "[embed.range] embed slice skip="@ + dec_digits(skip as nat) + " len="@ + dec_digits(len as nat)
        + " exceeds file length "@ + dec_digits(file_len)
}

/// The bytes `embed(path, skip: s, len: n)` keeps of a file: `n` bytes from
/// offset `s` (`s` defaulting to 0, `n` to the rest of the file), refused
/// when `s`, or `s + n`, is past the end of the file.
pub open spec fn embed_slice_spec(bytes: Seq<u8>, skip: u64, len: Option<u64>) -> Result<Seq<u8>, Seq<char>> {
    let file_len = bytes.len();
    if skip > file_len {
        Err(skip_past_end_message(skip, file_len))
    } else {
        let n: int = match len {
            Some(n) => n as int,
            None => file_len - skip,
        };
        if n > file_len - skip {
            Err(slice_past_end_message(skip, n as u64, file_len))
        } else {
            Ok(bytes.subrange(skip as int, skip + n))
        }
    }
}

/// Cut the slice `embed` keeps of a file's bytes (see [`embed_slice_spec`]).
pub fn embed_slice(bytes: &[u8], skip: u64, len: Option<u64>) -> (r: Result<Vec<u8>, String>)
    ensures
        match embed_slice_spec(bytes@, skip, len) {
            Ok(b) => r matches Ok(v) && v@ == b,
            Err(m) => r matches Err(e) && e@ == m,
        },
{
    let file_len: usize = bytes.len();
    if skip as u128 > file_len as u128 {
        let mut m = String::from_str("[embed.range] embed skip=");
        push_decimal_u128(&mut m, skip as u128);
        m.append(" exceeds file length ");
        push_decimal_u128(&mut m, file_len as u128);
        return Err(m);
    }
    let start: usize = skip as usize;
    let rest: usize = file_len - start;
    let n: u64 = match len {
        Some(n) => n,
        None => rest as u64,
    };
    if n as u128 > rest as u128 {
        let mut m = String::from_str("[embed.range] embed slice skip=");
        push_decimal_u128(&mut m, skip as u128);
        m.append(" len=");
        push_decimal_u128(&mut m, n as u128);
        m.append(" exceeds file length ");
        push_decimal_u128(&mut m, file_len as u128);
        return Err(m);
    }
    let end: usize = start + n as usize;
    let mut out: Vec<u8> = Vec::new();
    let mut k: usize = start;
    while k < end
        invariant
            start <= k <= end <= bytes@.len(),
            out@ == bytes@.subrange(start as int, k as int),
        decreases end - k,
    {
        out.push(bytes[k]);
        assert(out@ =~= bytes@.subrange(start as int, k + 1));
        k = k + 1;
    }
    Ok(out)
}

/// A `skip:`/`len:` count given to `embed`: a non-negative value that fits
/// `u64`, else ``[`label` must be a non-negative value that fits u64, got
/// n]``.
pub fn embed_count(label: &str, n: i128) -> (r: Result<u64, String>)
    ensures
        0 <= n <= u64::MAX ==> r == Ok::<u64, String>(n as u64),
        !(0 <= n <= u64::MAX) ==> (r matches Err(m) && m@ == "`"@ + label@
            + "` must be a non-negative value that fits u64, got "@ + signed_dec(n as int)),
{
    if n < 0 || n > u64::MAX as i128 {
        let mut m = String::from_str("`");
        m.append(label);
        m.append("` must be a non-negative value that fits u64, got ");
        push_signed_decimal(&mut m, n);
        Err(m)
    } else {
        Ok(n as u64)
    }
}

/// The file formats `import` reads.
#[derive(Clone, Copy, Debug, PartialEq, Eq, Structural)]
pub enum ImportFormat {
    Json,
    Toml,
}

/// A character with ASCII capitals lower-cased.
pub open spec fn ascii_lower(c: char) -> char {
    if 'A' <= c <= 'Z' {
        ((c as u32) + 32) as char
    } else {
        c
    }
}

/// Whether `s` spells `lit` up to ASCII case (`lit` lower-case).
pub open spec fn eq_ignoring_ascii_case(s: Seq<char>, lit: Seq<char>) -> bool {
    s.len() == lit.len() && forall|i: int| 0 <= i < s.len() ==> ascii_lower(#[trigger] s[i]) == lit[i]
}

fn matches_lower(s: &str, lit: &[char]) -> (b: bool)
    ensures
        b == eq_ignoring_ascii_case(s@, lit@),
{
    let n = s.unicode_len();
    if n != lit.len() {
        return false;
    }
    let mut i: usize = 0;
    while i < n
        invariant
            i <= n,
            n == s@.len(),
            n == lit@.len(),
            forall|j: int| 0 <= j < i ==> ascii_lower(#[trigger] s@[j]) == lit@[j],
        decreases n - i,
    {
        let c = s.get_char(i);
        let l = if 'A' <= c && c <= 'Z' {
            ((c as u32) + 32) as u8 as char
        } else {
            c
        };
        assert(l == ascii_lower(c)) by {
            if 'A' <= c && c <= 'Z' {
                assert(((c as u32) + 32) as u8 as char == ((c as u32) + 32) as char);
            }
        }
        if l != lit[i] {
            return false;
        }
        i = i + 1;
    }
    true
}

/// The format `import` parses a file with, by its extension, ignoring ASCII
/// case: `.json` or `.toml`; any other extension, or none, is
/// `[import.format]`.
pub fn import_format(ext: Option<&str>) -> (r: Result<ImportFormat, String>)
    ensures
        match ext {
            Some(e) => if eq_ignoring_ascii_case(e@, seq!['j', 's', 'o', 'n']) {
                r == Ok::<ImportFormat, String>(ImportFormat::Json)
            } else if eq_ignoring_ascii_case(e@, seq!['t', 'o', 'm', 'l']) {
                r == Ok::<ImportFormat, String>(ImportFormat::Toml)
            } else {
                r matches Err(m) && m@ == "[import.format] import needs a .json or .toml file"@
            },
            None => r matches Err(m) && m@ == "[import.format] import needs a .json or .toml file"@,
        },
{
    if let Some(e) = ext {
        if matches_lower(e, &['j', 's', 'o', 'n']) {
            return Ok(ImportFormat::Json);
        }
        if matches_lower(e, &['t', 'o', 'm', 'l']) {
            return Ok(ImportFormat::Toml);
        }
    }
    Err(String::from_str("[import.format] import needs a .json or .toml file"))
}

/// Slices split a file without losing or repeating a byte: the first `k`
/// bytes followed by the rest from `k` on give back the whole file, and with
/// neither `skip` nor `len` the slice is the whole file.
pub proof fn law_embed_slices_partition_the_file(bytes: Seq<u8>, k: u64)
    requires
        k <= bytes.len(),
    ensures
        embed_slice_spec(bytes, 0, None) == Ok::<Seq<u8>, Seq<char>>(bytes),
        embed_slice_spec(bytes, 0, Some(k)) matches Ok(a) ==> (embed_slice_spec(bytes, k, None) matches Ok(b)
            ==> a + b == bytes),
        embed_slice_spec(bytes, 0, Some(k)) is Ok,
        embed_slice_spec(bytes, k, None) is Ok,
{
    assert(bytes.subrange(0, bytes.len() as int) =~= bytes);
    assert(bytes.subrange(0, k as int) + bytes.subrange(k as int, bytes.len() as int) =~= bytes);
}

} // verus!
