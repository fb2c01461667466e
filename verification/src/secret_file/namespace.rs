//! Names and digests by which private directories are staged, locked and found again.

use sha2::Digest;
use vstd::prelude::*;

use crate::encoding;
use crate::encoding::{bytes_eq, decimal_text, push_bytes};
use crate::hash;
use crate::hash::hex_encode;
use crate::secret_file::fault::SecretFault;

verus! {

/// The SHA-256 digest of some bytes.
pub uninterp spec fn sha256_digest(data: Seq<u8>) -> Seq<u8>;

/// `Sha256::digest` of sha2: the 32-byte SHA-256 digest, which depends on `data` alone.
#[verifier::external_body]
pub(crate) fn sha256(data: &[u8]) -> (digest: [u8; 32])
    ensures
        digest@ == sha256_digest(data@),
{
    sha2::Sha256::digest(data).into()
}

/// A text in upper case, by Unicode's rules.
pub uninterp spec fn upper_case(text: Seq<char>) -> Seq<char>;

/// `str::to_uppercase`: the text in upper case, which depends on the text alone.
#[verifier::external_body]
fn to_upper_case(text: &str) -> (upper: String)
    ensures
        upper@ == upper_case(text@),
{
    text.to_uppercase()
}

/// The digest of some bytes as hexadecimal text.
pub open spec fn digest_text(data: Seq<u8>) -> Seq<char> {
    hash::hex_text(sha256_digest(data))
}

/// Computes the digest of some bytes as hexadecimal text: of the bytes of a path, or of a file.
pub fn path_digest(data: &[u8]) -> (text: String)
    ensures
        text@ == digest_text(data@),
{
    hex_encode(&sha256(data))
}

/// UTF-16 units as bytes, low byte first.
pub open spec fn wide_bytes(units: Seq<u16>) -> Seq<u8> {
    Seq::new(
        2 * units.len(),
        |i: int|
            if i % 2 == 0 {
                (units[i / 2] % 256) as u8
            } else {
                (units[i / 2] / 256) as u8
            },
    )
}

/// Writes UTF-16 units as bytes, low byte first.
pub fn wide_path_bytes(units: &[u16]) -> (out: Vec<u8>)
    ensures
        out@ == wide_bytes(units@),
{
    let mut out: Vec<u8> = Vec::new();
    let mut i: usize = 0;
    while i < units.len()
        invariant
            i <= units.len(),
            out@ == wide_bytes(units@.take(i as int)),
        decreases units.len() - i,
    {
        let ghost before = units@.take(i as int);
        let unit: u16 = units[i];
        out.push((unit % 256) as u8);
        out.push((unit / 256) as u8);
        i = i + 1;
        assert(units@.take(i as int) =~= before.push(unit));
        assert(out@ =~= wide_bytes(units@.take(i as int)));
    }
    assert(units@.take(units@.len() as int) =~= units@);
    out
}

/// What a namespace digest is taken of: the resolved parent, a separator and the leaf.
pub open spec fn namespace_bytes(parent: Seq<u8>, leaf: Seq<u8>) -> Seq<u8> {
    parent.push(0xff) + leaf
}

/// Computes the identity of a name in a directory.
pub fn namespace_path_digest(parent: &[u8], leaf: &[u8]) -> (text: String)
    ensures
        text@ == digest_text(namespace_bytes(parent@, leaf@)),
{
    let mut data: Vec<u8> = Vec::new();
    push_bytes(&mut data, parent);
    data.push(0xff);
    push_bytes(&mut data, leaf);
    assert(data@ =~= namespace_bytes(parent@, leaf@));
    path_digest(data.as_slice())
}

/// Computes the identity of a name in a directory whose names are matched without regard to case:
/// names that agree in upper case share it.
pub fn namespace_path_digest_folded(parent: &[u8], leaf: &str) -> (text: String)
    ensures
        text@ == digest_text(
            namespace_bytes(parent@, encoding::text_bytes(upper_case(leaf@))),
        ),
{
    let upper: String = to_upper_case(leaf);
    namespace_path_digest(parent, upper.as_str().as_bytes())
}

/// The name under which a directory waits while its name is published anew.
pub fn private_directory_namespace_rebarrier_name(digest: &str) -> (name: String)
    ensures
        name@ == ".arc-private-directory-namespace-"@ + digest@ + ".rebarrier"@,
{
    ".arc-private-directory-namespace-".to_owned().concat(digest).concat(".rebarrier")
}

/// The name of the lock on a directory's name.
pub fn private_directory_namespace_lock_name(digest: &str) -> (name: String)
    ensures
        name@ == ".arc-private-directory-namespace-"@ + digest@ + ".lock"@,
{
    ".arc-private-directory-namespace-".to_owned().concat(digest).concat(".lock")
}

/// The name under which a directory is created before it is published.
pub fn private_directory_staging_name(digest: &str) -> (name: String)
    ensures
        name@ == ".arc-private-directory-create-"@ + digest@ + ".staging"@,
{
    ".arc-private-directory-create-".to_owned().concat(digest).concat(".staging")
}

/// The name of a staging file: the final name, the process and a nonce.
pub open spec fn staging_text(
    file_name: Seq<char>,
    process: u32,
    nonce: Seq<u8>,
    suffix: Seq<char>,
) -> Seq<char> {
    "."@ + file_name + "."@ + encoding::decimal(process as nat) + "."@ + hash::hex_text(nonce)
        + "."@ + suffix
}

/// Names a staging file.
pub fn staging_name(file_name: &str, process: u32, nonce: &[u8], suffix: &str) -> (name: String)
    ensures
        name@ == staging_text(file_name@, process, nonce@, suffix@),
{
    let pid: String = decimal_text(process as u64);
    let hex: String = hex_encode(nonce);
    ".".to_owned().concat(file_name).concat(".").concat(pid.as_str()).concat(".").concat(
        hex.as_str(),
    ).concat(".").concat(suffix)
}

/// Staging names of one process for one file differ where their nonces of one length do, so that
/// an orphan never stands in the way of a later publication.
pub proof fn law_staging_names_are_fresh(
    file_name: Seq<char>,
    process: u32,
    a: Seq<u8>,
    b: Seq<u8>,
    suffix: Seq<char>,
)
    requires
        a.len() == b.len(),
        a != b,
    ensures
        staging_text(file_name, process, a, suffix) != staging_text(file_name, process, b, suffix),
{
    let head = "."@ + file_name + "."@ + encoding::decimal(process as nat) + "."@;
    let ha = hash::hex_text(a);
    let hb = hash::hex_text(b);
    if staging_text(file_name, process, a, suffix) == staging_text(
        file_name,
        process,
        b,
        suffix,
    ) {
        let whole = staging_text(file_name, process, a, suffix);
        let from = head.len() as int;
        let to = from + ha.len();
        assert(whole.subrange(from, to) =~= ha);
        assert(whole.subrange(from, to) =~= hb);
        hash::law_hex_roundtrip(a);
        hash::law_hex_roundtrip(b);
    }
}

/// What a directory or its staged form looks like from outside.
#[derive(Clone, Copy, Debug, PartialEq, Eq, Structural)]
pub enum NameStatus {
    /// Nothing has the name.
    Absent,
    /// A real directory.
    Directory,
    /// A link, or something else than a directory.
    Other,
    /// The status could not be read.
    Unreadable,
}

/// What is to be done about a directory whose name was being published anew.
#[derive(Clone, Copy, Debug, PartialEq, Eq, Structural)]
pub enum RestoreAction {
    /// Nothing: the live name stands, or neither does.
    Settled,
    /// The staged directory goes back to its live name.
    MoveBack,
    /// The live status is reported as it was read.
    ReportLive,
    /// The staged status is reported as it was read.
    ReportStaged,
}

/// The decision on an interrupted publication.
pub open spec fn restore_decision(live: NameStatus, staged: NameStatus) -> Result<
    RestoreAction,
    SecretFault,
> {
    match (live, staged) {
        (NameStatus::Directory, NameStatus::Directory) => Err(SecretFault::SplitNamespace),
        (NameStatus::Directory | NameStatus::Other, NameStatus::Directory | NameStatus::Other) =>
            Err(SecretFault::LinkedNamespace),
        (NameStatus::Directory, NameStatus::Absent) => Ok(RestoreAction::Settled),
        (NameStatus::Other, NameStatus::Absent) => Err(SecretFault::LinkedDirectory),
        (NameStatus::Absent, NameStatus::Directory) => Ok(RestoreAction::MoveBack),
        (NameStatus::Absent, NameStatus::Other) => Err(SecretFault::LinkedRebarrier),
        (NameStatus::Absent, NameStatus::Absent) => Ok(RestoreAction::Settled),
        (NameStatus::Directory | NameStatus::Other, NameStatus::Unreadable) => Ok(
            RestoreAction::ReportStaged,
        ),
        _ => Ok(RestoreAction::ReportLive),
    }
}

/// Decides what to do about a directory whose name was being published anew.
pub fn restore_private_directory_namespace_rebarrier(live: NameStatus, staged: NameStatus) -> (r:
    Result<RestoreAction, SecretFault>)
    ensures
        r == restore_decision(live, staged),
{
    match (live, staged) {
        (NameStatus::Directory, NameStatus::Directory) => Err(SecretFault::SplitNamespace),
        (NameStatus::Directory, NameStatus::Other) => Err(SecretFault::LinkedNamespace),
        (NameStatus::Directory, NameStatus::Absent) => Ok(RestoreAction::Settled),
        (NameStatus::Directory, NameStatus::Unreadable) => Ok(RestoreAction::ReportStaged),
        (NameStatus::Other, NameStatus::Directory) => Err(SecretFault::LinkedNamespace),
        (NameStatus::Other, NameStatus::Other) => Err(SecretFault::LinkedNamespace),
        (NameStatus::Other, NameStatus::Absent) => Err(SecretFault::LinkedDirectory),
        (NameStatus::Other, NameStatus::Unreadable) => Ok(RestoreAction::ReportStaged),
        (NameStatus::Absent, NameStatus::Directory) => Ok(RestoreAction::MoveBack),
        (NameStatus::Absent, NameStatus::Other) => Err(SecretFault::LinkedRebarrier),
        (NameStatus::Absent, NameStatus::Absent) => Ok(RestoreAction::Settled),
        (NameStatus::Absent, NameStatus::Unreadable) => Ok(RestoreAction::ReportLive),
        (NameStatus::Unreadable, _) => Ok(RestoreAction::ReportLive),
    }
}

/// The statuses of the two names after an action.
pub open spec fn restored(live: NameStatus, staged: NameStatus, action: RestoreAction) -> (
    NameStatus,
    NameStatus,
) {
    match action {
        RestoreAction::MoveBack => (staged, NameStatus::Absent),
        _ => (live, staged),
    }
}

/// A directory is never replaced: a move back happens only onto an absent name and leaves the
/// directory under its live name alone, after which there is nothing more to do.
pub proof fn law_restoring_settles(live: NameStatus, staged: NameStatus)
    requires
        restore_decision(live, staged) == Ok::<RestoreAction, SecretFault>(RestoreAction::MoveBack),
    ensures
        live is Absent,
        staged is Directory,
        restored(live, staged, RestoreAction::MoveBack) == (
            NameStatus::Directory,
            NameStatus::Absent,
        ),
        restore_decision(NameStatus::Directory, NameStatus::Absent) == Ok::<
            RestoreAction,
            SecretFault,
        >(RestoreAction::Settled),
{
}

/// Checks that the parent of a private directory is a real directory.
pub fn validate_private_directory_parent(status: NameStatus) -> (r: Result<(), SecretFault>)
    ensures
        r == (if status is Directory {
            Ok::<(), SecretFault>(())
        } else {
            Err(SecretFault::ParentNotDirectory)
        }),
{
    match status {
        NameStatus::Directory => Ok(()),
        _ => Err(SecretFault::ParentNotDirectory),
    }
}

/// The parent of a path as a directory: a bare name stands in the current directory.
pub open spec fn directory_of(parent: Seq<u8>) -> Seq<u8> {
    if parent.len() == 0 {
        seq![46u8]
    } else {
        parent
    }
}

/// Checks that a staging file may be published at its final name: both must be in the same
/// directory, by the bytes of their parents.
pub fn durably_publish_existing_private_no_replace(
    staging_parent: &[u8],
    final_parent: &[u8],
) -> (r: Result<(), SecretFault>)
    ensures
        r == (if directory_of(staging_parent@) == directory_of(final_parent@) {
            Ok::<(), SecretFault>(())
        } else {
            Err(SecretFault::SeparateDirectories)
        }),
{
    let dot: [u8; 1] = [46u8];
    assert(dot@ =~= seq![46u8]);
    let a: &[u8] = if staging_parent.len() == 0 {
        &dot
    } else {
        staging_parent
    };
    let b: &[u8] = if final_parent.len() == 0 {
        &dot
    } else {
        final_parent
    };
    if bytes_eq(a, b) {
        Ok(())
    } else {
        Err(SecretFault::SeparateDirectories)
    }
}

/// Whether two different byte strings have the same SHA-256 digest.
pub open spec fn sha256_collides(x: Seq<u8>, y: Seq<u8>) -> bool {
    x != y && sha256_digest(x) == sha256_digest(y)
}

/// The printed digest of bytes belongs to those bytes alone, unless the digests collide.
pub proof fn law_printed_digests_bind_bytes(a: Seq<u8>, b: Seq<u8>)
    requires
        digest_text(a) == digest_text(b),
    ensures
        a == b || sha256_collides(a, b),
{
    hash::law_hex_injective(sha256_digest(a), sha256_digest(b));
}

/// The bytes of 16-bit units hold every unit, low byte first, so that only the same units have the
/// same bytes.
pub proof fn law_wide_bytes_are_injective(a: Seq<u16>, b: Seq<u16>)
    ensures
        wide_bytes(a).len() == 2 * a.len(),
        forall|i: int|
            0 <= i < a.len() ==> wide_bytes(a)[2 * i] + 256 * wide_bytes(a)[2 * i + 1]
                == #[trigger] a[i],
        wide_bytes(a) == wide_bytes(b) <==> a == b,
{
    assert forall|i: int| 0 <= i < a.len() implies wide_bytes(a)[2 * i] + 256 * wide_bytes(a)[2 * i
        + 1] == #[trigger] a[i] by {
        assert((2 * i) / 2 == i && (2 * i) % 2 == 0 && (2 * i + 1) / 2 == i && (2 * i + 1) % 2 == 1);
    }
    if wide_bytes(a) == wide_bytes(b) {
        assert(wide_bytes(b).len() == 2 * b.len());
        assert forall|i: int| 0 <= i < a.len() implies a[i] == b[i] by {
            assert((2 * i) / 2 == i && (2 * i) % 2 == 0 && (2 * i + 1) / 2 == i && (2 * i + 1) % 2
                == 1);
            assert(wide_bytes(a)[2 * i] == wide_bytes(b)[2 * i]);
            assert(wide_bytes(a)[2 * i + 1] == wide_bytes(b)[2 * i + 1]);
        }
        assert(a =~= b);
    }
}

/// A parent and a leaf without the separating byte have bytes of their own.
pub proof fn law_namespaces_bind_parent_and_leaf(
    parent_a: Seq<u8>,
    leaf_a: Seq<u8>,
    parent_b: Seq<u8>,
    leaf_b: Seq<u8>,
)
    requires
        !parent_a.contains(0xff),
        !parent_b.contains(0xff),
        namespace_bytes(parent_a, leaf_a) == namespace_bytes(parent_b, leaf_b),
    ensures
        parent_a == parent_b,
        leaf_a == leaf_b,
{
    let x = namespace_bytes(parent_a, leaf_a);
    let n = parent_a.len() as int;
    let m = parent_b.len() as int;
    if n < m {
        assert(x[n] == 0xff);
        assert(x[n] == parent_b[n]);
    } else if m < n {
        assert(x[m] == 0xff);
        assert(x[m] == parent_a[m]);
    }
    encoding::lemma_split(parent_a.push(0xff), leaf_a, parent_b.push(0xff), leaf_b);
    assert(parent_a =~= parent_a.push(0xff).drop_last());
    assert(parent_b =~= parent_b.push(0xff).drop_last());
}

/// Staging names of two processes for one file differ.
pub proof fn law_staging_names_bind_the_process(
    file_name: Seq<char>,
    a: u32,
    b: u32,
    x: Seq<u8>,
    y: Seq<u8>,
    suffix: Seq<char>,
)
    requires
        x.len() == y.len(),
        staging_text(file_name, a, x, suffix) == staging_text(file_name, b, y, suffix),
    ensures
        a == b,
        x == y,
{
    let head = "."@ + file_name + "."@;
    let da = encoding::decimal(a as nat);
    let db = encoding::decimal(b as nat);
    let ha = hash::hex_text(x);
    let hb = hash::hex_text(y);
    let dot = "."@;
    hash::law_hex_injective(x, y);
    hash::law_hex_injective(y, x);
    assert((head + da + dot + ha + dot + suffix).len() == head.len() + da.len() + 2 * dot.len()
        + ha.len() + suffix.len());
    assert((head + db + dot + hb + dot + suffix).len() == head.len() + db.len() + 2 * dot.len()
        + hb.len() + suffix.len());
    encoding::lemma_split(head + da + dot + ha + dot, suffix, head + db + dot + hb + dot, suffix);
    encoding::lemma_split(head + da + dot + ha, dot, head + db + dot + hb, dot);
    encoding::lemma_split(head + da + dot, ha, head + db + dot, hb);
    encoding::lemma_split(head + da, dot, head + db, dot);
    encoding::lemma_split(head, da, head, db);
    encoding::law_decimal_injective(a as nat, b as nat);
}

/// A directory is moved back exactly where its name is free and the staged one is a directory; two
/// objects under both names are always refused, and what cannot be read is reported.
pub proof fn law_restoring_never_overwrites(live: NameStatus, staged: NameStatus)
    ensures
        restore_decision(live, staged) == Ok::<RestoreAction, SecretFault>(RestoreAction::MoveBack)
            <==> live is Absent && staged is Directory,
        (live is Directory || live is Other) && (staged is Directory || staged is Other)
            ==> restore_decision(live, staged) is Err,
        restore_decision(live, staged) == Ok::<RestoreAction, SecretFault>(RestoreAction::Settled)
            <==> staged is Absent && (live is Directory || live is Absent),
        live is Unreadable ==> restore_decision(live, staged) == Ok::<RestoreAction, SecretFault>(
            RestoreAction::ReportLive,
        ),
        staged is Unreadable && (live is Directory || live is Other) ==> restore_decision(live, staged)
            == Ok::<RestoreAction, SecretFault>(RestoreAction::ReportStaged),
        live is Other && staged is Absent ==> restore_decision(live, staged) == Err::<
            RestoreAction,
            SecretFault,
        >(SecretFault::LinkedDirectory),
        live is Absent && staged is Other ==> restore_decision(live, staged) == Err::<
            RestoreAction,
            SecretFault,
        >(SecretFault::LinkedRebarrier),
{
}

/// A staging name is hidden, starts with the name of its file and ends with its suffix: files with names
/// of one length never share one.
pub proof fn law_staging_names_bind_the_file(
    file_a: Seq<char>,
    file_b: Seq<char>,
    process: u32,
    nonce: Seq<u8>,
    suffix: Seq<char>,
)
    ensures
        ({
            let name = staging_text(file_a, process, nonce, suffix);
            &&& name.len() > file_a.len() + suffix.len()
            &&& name[0] == '.'
            &&& name.subrange(1, file_a.len() as int + 1) == file_a
            &&& name.subrange(name.len() - suffix.len(), name.len() as int) == suffix
        }),
        file_a.len() == file_b.len() && staging_text(file_a, process, nonce, suffix)
            == staging_text(file_b, process, nonce, suffix) ==> file_a == file_b,
{
    reveal_strlit(".");
    let name = staging_text(file_a, process, nonce, suffix);
    let other = staging_text(file_b, process, nonce, suffix);
    assert(name.subrange(1, file_a.len() as int + 1) =~= file_a);
    assert(name.subrange(name.len() - suffix.len(), name.len() as int) =~= suffix);
    assert(other.subrange(1, file_b.len() as int + 1) =~= file_b);
}

/// The directory of a path without one is the current directory.
pub proof fn law_directories_are_named(parent: Seq<u8>)
    ensures
        parent.len() > 0 ==> directory_of(parent) == parent,
        directory_of(Seq::empty()) == encoding::text_bytes("."@),
{
    reveal_strlit(".");
    assert(vstd::utf8::is_ascii_chars("."@));
    vstd::utf8::is_ascii_chars_encode_utf8("."@);
    assert(encoding::text_bytes("."@) =~= seq![46u8]);
}

} // verus!
