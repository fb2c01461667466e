//! Refusals of the private-file rules.

use vstd::prelude::*;
use vstd::string::*;

use crate::encoding;
use crate::encoding::decimal_text;

verus! {

/// The class of a refusal, as an operating system would report it.
#[derive(Clone, Copy, Debug, PartialEq, Eq, Structural)]
pub enum FaultKind {
    InvalidInput,
    InvalidData,
    NotFound,
    PermissionDenied,
}

/// Why a path, a file or a receipt is refused.
#[derive(Clone, Copy, Debug, PartialEq, Eq, Structural)]
pub enum SecretFault {
    /// A Windows path is empty.
    EmptyPath,
    /// A Windows path names a device or a bare verbatim namespace.
    DeviceNamespace,
    /// A Windows path has a drive without a root, or a root without a drive.
    PartiallyQualified,
    /// The current directory is not fully qualified.
    UnqualifiedCurrentDirectory,
    /// A Windows path climbs above its root.
    EscapesRoot,
    /// A Windows path names a dot segment as an ordinary component.
    DotSegment,
    /// A Windows path holds a NUL.
    InteriorNul,
    /// A directory path goes through its parent.
    ParentTraversal,
    /// A directory path names no leaf.
    NoLeaf,
    /// An existing component is no directory.
    NonDirectoryComponent,
    /// An existing component is a link, or no directory.
    LinkedComponent,
    /// No component of the path exists.
    NoExistingAncestor,
    /// A missing component has no name of its own.
    UnnamedComponent,
    /// The deepest existing component does not resolve to a directory.
    AncestorNotDirectory,
    /// The live or the staged name is no real directory.
    LinkedNamespace,
    /// The directory exists under its live and its staged name.
    SplitNamespace,
    /// The live name is no real directory.
    LinkedDirectory,
    /// The staged name is no real directory.
    LinkedRebarrier,
    /// The parent of a directory is no real directory.
    ParentNotDirectory,
    /// A file and its staging file are in different directories.
    SeparateDirectories,
    /// A private file is no regular file.
    NotRegularFile,
    /// An owner-controlled file is no regular file.
    NotOwnedRegularFile,
    /// A private directory is no directory.
    NotDirectory,
    /// An object belongs to another user.
    ForeignOwner { effective_uid: u32, uid: u32 },
    /// A private file has other permissions than its owner's.
    WrongFileMode { mode: u32 },
    /// A private directory has other permissions than its owner's.
    WrongDirectoryMode { mode: u32 },
    /// A Windows object belongs to an account outside the owner policy.
    UntrustedOwner,
    /// A Windows object has no access list.
    NullAccessList,
    /// A Windows access list inherits from the parent.
    InheritedAccessList,
    /// A Windows access rule is of an unknown form.
    UnsupportedRule,
    /// A Windows access rule grants access to another account.
    OutsideTrustSet,
    /// A Windows access rule grants less than full control.
    NoncanonicalRule,
    /// No Windows access rule grants the current user full control.
    NoFullControl,
    /// A receipt to be written is too large.
    PayloadTooLarge,
    /// A receipt that was read is too large.
    ReceiptTooLarge,
    /// A receipt does not begin with its schema.
    InvalidSchema,
    /// A receipt has no nonce line.
    MissingNonce,
    /// The nonce of a receipt is not hexadecimal.
    NonceNotHexadecimal,
    /// The nonce of a receipt has another length.
    NonceLength,
    /// The receipt that is there binds another node.
    ExistingReceiptMismatch,
    /// The acknowledgement left over binds another node.
    AckResidueMismatch,
    /// The receipt binds another node.
    ReceiptMismatch,
    /// The inherited receipt binds another node.
    RecoveryMismatch,
    /// The acknowledgement that is there binds another node.
    ExistingAckMismatch,
    /// The acknowledgement binds another node.
    AckMismatch,
    /// The receipt or its acknowledgement binds another node.
    PairMismatch,
    /// The receipt is not that of the failed launch.
    FailedSpawnMismatch,
    /// A file that a receipt binds is no regular file.
    IdentityNotFile,
}

/// The permission bits of a mode.
pub open spec fn permission_bits(mode: u32) -> u32 {
    (mode % 512) as u32
}

/// Permission bits as four octal digits.
pub open spec fn octal(bits: u32) -> Seq<char> {
    seq![
        encoding::digit_char((bits as int / 512 % 8) as nat),
        encoding::digit_char((bits as int / 64 % 8) as nat),
        encoding::digit_char((bits as int / 8 % 8) as nat),
        encoding::digit_char((bits as int % 8) as nat),
    ]
}

/// Writes permission bits as four octal digits.
fn octal_text(bits: u32) -> (text: String)
    ensures
        text@ == octal(bits),
{
    let a: String = decimal_text((bits / 512 % 8) as u64);
    let b: String = decimal_text((bits / 64 % 8) as u64);
    let c: String = decimal_text((bits / 8 % 8) as u64);
    let d: String = decimal_text((bits % 8) as u64);
    let text: String = a.concat(b.as_str()).concat(c.as_str()).concat(d.as_str());
    assert(text@ =~= octal(bits));
    text
}

/// The class of a refusal.
pub open spec fn fault_kind(fault: SecretFault) -> FaultKind {
    match fault {
        SecretFault::EmptyPath
        | SecretFault::DeviceNamespace
        | SecretFault::PartiallyQualified
        | SecretFault::EscapesRoot
        | SecretFault::DotSegment
        | SecretFault::InteriorNul
        | SecretFault::ParentTraversal
        | SecretFault::NoLeaf
        | SecretFault::UnnamedComponent
        | SecretFault::SeparateDirectories => FaultKind::InvalidInput,
        SecretFault::UnqualifiedCurrentDirectory
        | SecretFault::SplitNamespace
        | SecretFault::PayloadTooLarge
        | SecretFault::ReceiptTooLarge
        | SecretFault::InvalidSchema
        | SecretFault::MissingNonce
        | SecretFault::NonceNotHexadecimal
        | SecretFault::NonceLength
        | SecretFault::ExistingReceiptMismatch
        | SecretFault::AckResidueMismatch
        | SecretFault::ReceiptMismatch
        | SecretFault::RecoveryMismatch
        | SecretFault::ExistingAckMismatch
        | SecretFault::AckMismatch
        | SecretFault::PairMismatch
        | SecretFault::FailedSpawnMismatch
        | SecretFault::IdentityNotFile => FaultKind::InvalidData,
        SecretFault::NoExistingAncestor => FaultKind::NotFound,
        _ => FaultKind::PermissionDenied,
    }
}

/// What a refusal says of an object of some kind at some path.
pub open spec fn fault_text(fault: SecretFault, object: Seq<char>, path: Seq<char>) -> Seq<char> {
    match fault {
        SecretFault::EmptyPath => "Windows path must not be empty"@,
        SecretFault::DeviceNamespace => "Windows device/verbatim namespace paths are not valid ARC data paths"@,
        SecretFault::PartiallyQualified => "Windows data path must be fully qualified or ordinarily relative: "@ + path,
        SecretFault::UnqualifiedCurrentDirectory => "Windows current directory is not fully qualified"@,
        SecretFault::EscapesRoot => "Windows path escapes its filesystem root: "@ + path,
        SecretFault::DotSegment => "Windows verbatim data paths must not contain dot segments"@,
        SecretFault::InteriorNul => "Windows path contains an interior NUL"@,
        SecretFault::ParentTraversal => "private directory path must not contain '..': "@ + path,
        SecretFault::NoLeaf => "private directory must name a leaf component: "@ + path,
        SecretFault::NonDirectoryComponent => "private directory tree contains a non-directory component: "@ + path,
        SecretFault::LinkedComponent => "private directory tree contains a linked/non-directory component: "@ + path,
        SecretFault::NoExistingAncestor => "private directory has no existing ancestor: "@ + path,
        SecretFault::UnnamedComponent => "private directory has an unnamed component: "@ + path,
        SecretFault::AncestorNotDirectory => "private directory ancestor is not a directory: "@ + path,
        SecretFault::LinkedNamespace => "private directory namespace contains a linked/non-directory object"@,
        SecretFault::SplitNamespace => "private directory exists in both live and rebarrier namespaces: "@ + path,
        SecretFault::LinkedDirectory => "private directory is linked or not a directory: "@ + path,
        SecretFault::LinkedRebarrier => "private directory rebarrier is linked or not a directory: "@ + path,
        SecretFault::ParentNotDirectory => "private directory parent is not a real directory: "@ + path,
        SecretFault::SeparateDirectories => "durable private publication requires same-directory paths"@,
        SecretFault::NotRegularFile => "private file is not a regular file: "@ + path,
        SecretFault::NotOwnedRegularFile => "owner-controlled file is not a regular file: "@ + path,
        SecretFault::NotDirectory => "private directory is not a directory: "@ + path,
        SecretFault::ForeignOwner { effective_uid, uid } => "private "@ + object + " "@ + path + " must be owned by effective uid "@ + encoding::decimal(effective_uid as nat) + " (found uid "@ + encoding::decimal(uid as nat) + ")"@,
        SecretFault::WrongFileMode { mode } => "private file "@ + path + " must have mode 0600 (found "@ + octal(mode) + ")"@,
        SecretFault::WrongDirectoryMode { mode } => "private directory "@ + path + " must have mode 0700 (found "@ + octal(mode) + ")"@,
        SecretFault::UntrustedOwner => "private "@ + object + " is not owned by the current Windows user or trusted Administrators group: "@ + path,
        SecretFault::NullAccessList => "private "@ + object + " has a null (world-accessible) Windows DACL: "@ + path,
        SecretFault::InheritedAccessList => "private "@ + object + " Windows DACL inherits from its parent: "@ + path,
        SecretFault::UnsupportedRule => "private "@ + object + " has an unsupported Windows allow ACE: "@ + path,
        SecretFault::OutsideTrustSet => "private "@ + object + " grants Windows access outside the current user, LocalSystem, and Administrators: "@ + path,
        SecretFault::NoncanonicalRule => "private "@ + object + " has a noncanonical Windows access rule: "@ + path,
        SecretFault::NoFullControl => "private "@ + object + " does not grant the current Windows user full control: "@ + path,
        SecretFault::PayloadTooLarge => "desktop shutdown receipt payload is too large"@,
        SecretFault::ReceiptTooLarge => "desktop shutdown receipt is too large"@,
        SecretFault::InvalidSchema => "desktop shutdown receipt has an invalid schema"@,
        SecretFault::MissingNonce => "desktop shutdown receipt omits its nonce"@,
        SecretFault::NonceNotHexadecimal => "desktop shutdown receipt nonce is not hexadecimal"@,
        SecretFault::NonceLength => "desktop shutdown receipt nonce must contain exactly 32 bytes"@,
        SecretFault::ExistingReceiptMismatch => "existing desktop shutdown receipt does not match this node identity"@,
        SecretFault::AckResidueMismatch => "ACK-only shutdown residue does not match this exact node identity"@,
        SecretFault::ReceiptMismatch => "desktop shutdown receipt does not match this node identity"@,
        SecretFault::RecoveryMismatch => "desktop shutdown receipt does not match this recovery node identity"@,
        SecretFault::ExistingAckMismatch => "existing desktop shutdown ACK does not match this node identity"@,
        SecretFault::AckMismatch => "desktop shutdown ACK does not match this node identity"@,
        SecretFault::PairMismatch => "desktop shutdown marker/ACK pair does not match this node identity"@,
        SecretFault::FailedSpawnMismatch => "desktop shutdown receipt does not match the failed spawn attempt"@,
        SecretFault::IdentityNotFile => "shutdown receipt identity is not a regular file: "@ + path,
    }
}

impl SecretFault {
    /// The class of this refusal.
    pub fn kind(&self) -> (kind: FaultKind)
        ensures
            kind == fault_kind(*self),
    {
        match self {
            SecretFault::EmptyPath
            | SecretFault::DeviceNamespace
            | SecretFault::PartiallyQualified
            | SecretFault::EscapesRoot
            | SecretFault::DotSegment
            | SecretFault::InteriorNul
            | SecretFault::ParentTraversal
            | SecretFault::NoLeaf
            | SecretFault::UnnamedComponent
            | SecretFault::SeparateDirectories => FaultKind::InvalidInput,
            SecretFault::UnqualifiedCurrentDirectory
            | SecretFault::SplitNamespace
            | SecretFault::PayloadTooLarge
            | SecretFault::ReceiptTooLarge
            | SecretFault::InvalidSchema
            | SecretFault::MissingNonce
            | SecretFault::NonceNotHexadecimal
            | SecretFault::NonceLength
            | SecretFault::ExistingReceiptMismatch
            | SecretFault::AckResidueMismatch
            | SecretFault::ReceiptMismatch
            | SecretFault::RecoveryMismatch
            | SecretFault::ExistingAckMismatch
            | SecretFault::AckMismatch
            | SecretFault::PairMismatch
            | SecretFault::FailedSpawnMismatch
            | SecretFault::IdentityNotFile => FaultKind::InvalidData,
            SecretFault::NoExistingAncestor => FaultKind::NotFound,
            _ => FaultKind::PermissionDenied,
        }
    }

    /// What this refusal says of an object of some kind at some path.
    pub fn message(&self, object: &str, path: &str) -> (text: String)
        ensures
            text@ == fault_text(*self, object@, path@),
    {
        match self {
            SecretFault::EmptyPath => "Windows path must not be empty".to_owned(),
            SecretFault::DeviceNamespace => "Windows device/verbatim namespace paths are not valid ARC data paths".to_owned(),
            SecretFault::PartiallyQualified => "Windows data path must be fully qualified or ordinarily relative: ".to_owned().concat(path),
            SecretFault::UnqualifiedCurrentDirectory => "Windows current directory is not fully qualified".to_owned(),
            SecretFault::EscapesRoot => "Windows path escapes its filesystem root: ".to_owned().concat(path),
            SecretFault::DotSegment => "Windows verbatim data paths must not contain dot segments".to_owned(),
            SecretFault::InteriorNul => "Windows path contains an interior NUL".to_owned(),
            SecretFault::ParentTraversal => "private directory path must not contain '..': ".to_owned().concat(path),
            SecretFault::NoLeaf => "private directory must name a leaf component: ".to_owned().concat(path),
            SecretFault::NonDirectoryComponent => "private directory tree contains a non-directory component: ".to_owned().concat(path),
            SecretFault::LinkedComponent => "private directory tree contains a linked/non-directory component: ".to_owned().concat(path),
            SecretFault::NoExistingAncestor => "private directory has no existing ancestor: ".to_owned().concat(path),
            SecretFault::UnnamedComponent => "private directory has an unnamed component: ".to_owned().concat(path),
            SecretFault::AncestorNotDirectory => "private directory ancestor is not a directory: ".to_owned().concat(path),
            SecretFault::LinkedNamespace => "private directory namespace contains a linked/non-directory object".to_owned(),
            SecretFault::SplitNamespace => "private directory exists in both live and rebarrier namespaces: ".to_owned().concat(path),
            SecretFault::LinkedDirectory => "private directory is linked or not a directory: ".to_owned().concat(path),
            SecretFault::LinkedRebarrier => "private directory rebarrier is linked or not a directory: ".to_owned().concat(path),
            SecretFault::ParentNotDirectory => "private directory parent is not a real directory: ".to_owned().concat(path),
            SecretFault::SeparateDirectories => "durable private publication requires same-directory paths".to_owned(),
            SecretFault::NotRegularFile => "private file is not a regular file: ".to_owned().concat(path),
            SecretFault::NotOwnedRegularFile => "owner-controlled file is not a regular file: ".to_owned().concat(path),
            SecretFault::NotDirectory => "private directory is not a directory: ".to_owned().concat(path),
            SecretFault::ForeignOwner { effective_uid, uid } => "private ".to_owned().concat(object).concat(" ").concat(path).concat(" must be owned by effective uid ").concat(decimal_text(*effective_uid as u64).as_str()).concat(" (found uid ").concat(decimal_text(*uid as u64).as_str()).concat(")"),
            SecretFault::WrongFileMode { mode } => "private file ".to_owned().concat(path).concat(" must have mode 0600 (found ").concat(octal_text(*mode).as_str()).concat(")"),
            SecretFault::WrongDirectoryMode { mode } => "private directory ".to_owned().concat(path).concat(" must have mode 0700 (found ").concat(octal_text(*mode).as_str()).concat(")"),
            SecretFault::UntrustedOwner => "private ".to_owned().concat(object).concat(" is not owned by the current Windows user or trusted Administrators group: ").concat(path),
            SecretFault::NullAccessList => "private ".to_owned().concat(object).concat(" has a null (world-accessible) Windows DACL: ").concat(path),
            SecretFault::InheritedAccessList => "private ".to_owned().concat(object).concat(" Windows DACL inherits from its parent: ").concat(path),
            SecretFault::UnsupportedRule => "private ".to_owned().concat(object).concat(" has an unsupported Windows allow ACE: ").concat(path),
            SecretFault::OutsideTrustSet => "private ".to_owned().concat(object).concat(" grants Windows access outside the current user, LocalSystem, and Administrators: ").concat(path),
            SecretFault::NoncanonicalRule => "private ".to_owned().concat(object).concat(" has a noncanonical Windows access rule: ").concat(path),
            SecretFault::NoFullControl => "private ".to_owned().concat(object).concat(" does not grant the current Windows user full control: ").concat(path),
            SecretFault::PayloadTooLarge => "desktop shutdown receipt payload is too large".to_owned(),
            SecretFault::ReceiptTooLarge => "desktop shutdown receipt is too large".to_owned(),
            SecretFault::InvalidSchema => "desktop shutdown receipt has an invalid schema".to_owned(),
            SecretFault::MissingNonce => "desktop shutdown receipt omits its nonce".to_owned(),
            SecretFault::NonceNotHexadecimal => "desktop shutdown receipt nonce is not hexadecimal".to_owned(),
            SecretFault::NonceLength => "desktop shutdown receipt nonce must contain exactly 32 bytes".to_owned(),
            SecretFault::ExistingReceiptMismatch => "existing desktop shutdown receipt does not match this node identity".to_owned(),
            SecretFault::AckResidueMismatch => "ACK-only shutdown residue does not match this exact node identity".to_owned(),
            SecretFault::ReceiptMismatch => "desktop shutdown receipt does not match this node identity".to_owned(),
            SecretFault::RecoveryMismatch => "desktop shutdown receipt does not match this recovery node identity".to_owned(),
            SecretFault::ExistingAckMismatch => "existing desktop shutdown ACK does not match this node identity".to_owned(),
            SecretFault::AckMismatch => "desktop shutdown ACK does not match this node identity".to_owned(),
            SecretFault::PairMismatch => "desktop shutdown marker/ACK pair does not match this node identity".to_owned(),
            SecretFault::FailedSpawnMismatch => "desktop shutdown receipt does not match the failed spawn attempt".to_owned(),
            SecretFault::IdentityNotFile => "shutdown receipt identity is not a regular file: ".to_owned().concat(path),
        }
    }
}

/// The printed mode spells the mode: four octal digits, the first worth 512.
pub proof fn law_octal_spells_the_mode(bits: u32)
    requires
        bits < 4096,
    ensures
        octal(bits).len() == 4,
        (octal(bits)[0] as u32 - '0' as u32) * 512 + (octal(bits)[1] as u32 - '0' as u32) * 64 + (
        octal(bits)[2] as u32 - '0' as u32) * 8 + (octal(bits)[3] as u32 - '0' as u32) == bits,
{
    let b = bits as int;
    lemma_digit((b / 512 % 8) as nat);
    lemma_digit((b / 64 % 8) as nat);
    lemma_digit((b / 8 % 8) as nat);
    lemma_digit((b % 8) as nat);
    assert(b == 512 * (b / 512 % 8) + 64 * (b / 64 % 8) + 8 * (b / 8 % 8) + b % 8);
}

proof fn lemma_digit(d: nat)
    requires
        d < 10,
    ensures
        encoding::digit_char(d) as u32 - '0' as u32 == d,
{
}

/// The permission bits are the last nine of the mode.
pub proof fn law_permission_bits_are_the_last_nine(mode: u32)
    ensures
        permission_bits(mode) < 512,
        mode == 512 * (mode as int / 512) + permission_bits(mode),
{
}

/// Paths that cannot be used are invalid input, contents and names that do not fit are invalid data,
/// a path without any directory is not found, and all else is a denied permission.
pub proof fn law_faults_have_their_kind(fault: SecretFault)
    ensures
        fault_kind(fault) == FaultKind::InvalidInput <==> (fault is EmptyPath || fault
            is DeviceNamespace || fault is PartiallyQualified || fault is EscapesRoot || fault
            is DotSegment || fault is InteriorNul || fault is ParentTraversal || fault is NoLeaf
            || fault is UnnamedComponent || fault is SeparateDirectories),
        fault_kind(fault) == FaultKind::NotFound <==> fault is NoExistingAncestor,
        fault_kind(fault) == FaultKind::PermissionDenied <==> (fault is NonDirectoryComponent
            || fault is LinkedComponent || fault is AncestorNotDirectory || fault
            is LinkedNamespace || fault is LinkedDirectory || fault is LinkedRebarrier || fault
            is ParentNotDirectory || fault is NotRegularFile || fault is NotOwnedRegularFile
            || fault is NotDirectory || fault is ForeignOwner || fault is WrongFileMode || fault
            is WrongDirectoryMode || fault is UntrustedOwner || fault is NullAccessList || fault
            is InheritedAccessList || fault is UnsupportedRule || fault is OutsideTrustSet || fault
            is NoncanonicalRule || fault is NoFullControl),
{
}

/// The message on a wrong mode shows the mode that was found, and that on a foreign owner both owners.
pub proof fn law_messages_show_what_was_found(
    object: Seq<char>,
    path: Seq<char>,
    a: u32,
    b: u32,
    effective_uid: u32,
)
    requires
        a < 4096,
        b < 4096,
        a != b,
    ensures
        fault_text(SecretFault::WrongFileMode { mode: a }, object, path) != fault_text(
            SecretFault::WrongFileMode { mode: b },
            object,
            path,
        ),
        fault_text(SecretFault::WrongDirectoryMode { mode: a }, object, path) != fault_text(
            SecretFault::WrongDirectoryMode { mode: b },
            object,
            path,
        ),
        fault_text(SecretFault::ForeignOwner { effective_uid, uid: a }, object, path)
            != fault_text(SecretFault::ForeignOwner { effective_uid, uid: b }, object, path),
{
    law_octal_spells_the_mode(a);
    law_octal_spells_the_mode(b);
    let close = ")"@;
    let file = "private file "@ + path + " must have mode 0600 (found "@;
    let directory = "private directory "@ + path + " must have mode 0700 (found "@;
    let owner = "private "@ + object + " "@ + path + " must be owned by effective uid "@
        + encoding::decimal(effective_uid as nat) + " (found uid "@;
    if file + octal(a) + close == file + octal(b) + close {
        encoding::lemma_split(file + octal(a), close, file + octal(b), close);
        encoding::lemma_split(file, octal(a), file, octal(b));
    }
    if directory + octal(a) + close == directory + octal(b) + close {
        encoding::lemma_split(directory + octal(a), close, directory + octal(b), close);
        encoding::lemma_split(directory, octal(a), directory, octal(b));
    }
    let da = encoding::decimal(a as nat);
    let db = encoding::decimal(b as nat);
    if owner + da + close == owner + db + close {
        reveal_strlit(")");
        assert(owner + da + close =~= owner + (da + close));
        assert(owner + db + close =~= owner + (db + close));
        encoding::lemma_split(owner, da + close, owner, db + close);
        encoding::law_numbers_end_with_their_digits(a as nat, close, b as nat, close);
    }
}

} // verus!
