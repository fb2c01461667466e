//! Who may own and access private files and directories.

use vstd::prelude::*;

use crate::encoding::text_eq;
use crate::secret_file::fault;
use crate::secret_file::fault::SecretFault;

verus! {

/// The permissions of a private file: read and write by its owner.
pub const PRIVATE_FILE_MODE: u32 = 0o600;

/// The permissions of a private directory: all by its owner.
pub const PRIVATE_DIRECTORY_MODE: u32 = 0o700;

/// What the status of an open Unix file or directory says.
#[derive(Clone, Copy, Debug, PartialEq, Eq, Structural)]
pub struct UnixStatus {
    pub is_file: bool,
    pub is_dir: bool,
    pub uid: u32,
    pub mode: u32,
}

/// The kinds of object that have an owner policy.
#[derive(Clone, Copy, Debug, PartialEq, Eq, Structural)]
pub enum PrivateObject {
    File,
    Directory,
}

impl PrivateObject {
    /// The word for the kind in messages.
    pub fn word(&self) -> (text: &'static str)
        ensures
            text@ == (match *self {
                PrivateObject::File => "file"@,
                PrivateObject::Directory => "directory"@,
            }),
    {
        match self {
            PrivateObject::File => "file",
            PrivateObject::Directory => "directory",
        }
    }
}

/// What is wrong with the owner of an object.
pub open spec fn owner_fault(uid: u32, effective_uid: u32) -> Option<SecretFault> {
    if uid != effective_uid {
        Some(SecretFault::ForeignOwner { effective_uid, uid })
    } else {
        None
    }
}

/// What is wrong with a private object: it must be of its kind, belong to the user and grant
/// access to its owner alone.
pub open spec fn private_fault(
    object: PrivateObject,
    status: UnixStatus,
    effective_uid: u32,
) -> Option<SecretFault> {
    let bits = fault::permission_bits(status.mode);
    match object {
        PrivateObject::File => if !status.is_file {
            Some(SecretFault::NotRegularFile)
        } else if owner_fault(status.uid, effective_uid) is Some {
            owner_fault(status.uid, effective_uid)
        } else if bits != PRIVATE_FILE_MODE {
            Some(SecretFault::WrongFileMode { mode: bits })
        } else {
            None
        },
        PrivateObject::Directory => if !status.is_dir {
            Some(SecretFault::NotDirectory)
        } else if owner_fault(status.uid, effective_uid) is Some {
            owner_fault(status.uid, effective_uid)
        } else if bits != PRIVATE_DIRECTORY_MODE {
            Some(SecretFault::WrongDirectoryMode { mode: bits })
        } else {
            None
        },
    }
}

/// What stops the permissions of an object from being tightened: it must be of its kind and belong
/// to the user.
pub open spec fn migration_fault(
    object: PrivateObject,
    status: UnixStatus,
    effective_uid: u32,
) -> Option<SecretFault> {
    match object {
        PrivateObject::File => if !status.is_file {
            Some(SecretFault::NotRegularFile)
        } else {
            owner_fault(status.uid, effective_uid)
        },
        PrivateObject::Directory => if !status.is_dir {
            Some(SecretFault::NotDirectory)
        } else {
            owner_fault(status.uid, effective_uid)
        },
    }
}

/// The permissions that a private object gets.
pub open spec fn private_mode(object: PrivateObject) -> u32 {
    match object {
        PrivateObject::File => PRIVATE_FILE_MODE,
        PrivateObject::Directory => PRIVATE_DIRECTORY_MODE,
    }
}

/// Tightening the permissions of an object that may be tightened makes it private, and nothing but
/// the permissions can make an object unfit that may be tightened.
pub proof fn law_tightened_objects_are_private(
    object: PrivateObject,
    status: UnixStatus,
    effective_uid: u32,
)
    ensures
        migration_fault(object, status, effective_uid) is None <==> private_fault(
            object,
            UnixStatus { mode: private_mode(object), ..status },
            effective_uid,
        ) is None,
        private_fault(object, status, effective_uid) is None ==> migration_fault(
            object,
            status,
            effective_uid,
        ) is None && fault::permission_bits(status.mode) == private_mode(object),
{
}

/// Checks the owner of an object against a user.
pub fn validate_owner_as(uid: u32, effective_uid: u32) -> (r: Result<(), SecretFault>)
    ensures
        match r {
            Ok(()) => owner_fault(uid, effective_uid) is None,
            Err(f) => owner_fault(uid, effective_uid) == Some(f),
        },
{
    if uid != effective_uid {
        Err(SecretFault::ForeignOwner { effective_uid, uid })
    } else {
        Ok(())
    }
}

/// Extracts the permission bits of a mode.
fn permissions(mode: u32) -> (bits: u32)
    ensures
        bits == fault::permission_bits(mode),
{
    assert(mode & 0o777 == mode % 512) by (bit_vector);
    mode & 0o777
}

/// Checks that an open file is private.
pub fn validate_private(status: &UnixStatus, effective_uid: u32) -> (r: Result<(), SecretFault>)
    ensures
        match r {
            Ok(()) => private_fault(PrivateObject::File, *status, effective_uid) is None,
            Err(f) => private_fault(PrivateObject::File, *status, effective_uid) == Some(f),
        },
{
    if !status.is_file {
        return Err(SecretFault::NotRegularFile);
    }
    if let Err(f) = validate_owner_as(status.uid, effective_uid) {
        return Err(f);
    }
    let bits: u32 = permissions(status.mode);
    if bits != PRIVATE_FILE_MODE {
        return Err(SecretFault::WrongFileMode { mode: bits });
    }
    Ok(())
}

/// Checks that an open directory is private.
pub fn validate_private_directory(status: &UnixStatus, effective_uid: u32) -> (r: Result<
    (),
    SecretFault,
>)
    ensures
        match r {
            Ok(()) => private_fault(PrivateObject::Directory, *status, effective_uid) is None,
            Err(f) => private_fault(PrivateObject::Directory, *status, effective_uid) == Some(f),
        },
{
    if !status.is_dir {
        return Err(SecretFault::NotDirectory);
    }
    if let Err(f) = validate_owner_as(status.uid, effective_uid) {
        return Err(f);
    }
    let bits: u32 = permissions(status.mode);
    if bits != PRIVATE_DIRECTORY_MODE {
        return Err(SecretFault::WrongDirectoryMode { mode: bits });
    }
    Ok(())
}

/// Decides whether the permissions of an open file may be tightened, and returns those it gets.
pub fn open_private_owned_migration(status: &UnixStatus, effective_uid: u32) -> (r: Result<
    u32,
    SecretFault,
>)
    ensures
        match r {
            Ok(mode) => migration_fault(PrivateObject::File, *status, effective_uid) is None && mode
                == private_mode(PrivateObject::File),
            Err(f) => migration_fault(PrivateObject::File, *status, effective_uid) == Some(f),
        },
{
    if !status.is_file {
        return Err(SecretFault::NotRegularFile);
    }
    match validate_owner_as(status.uid, effective_uid) {
        Ok(()) => Ok(PRIVATE_FILE_MODE),
        Err(f) => Err(f),
    }
}

/// Decides whether the permissions of an open directory may be tightened, and returns those it
/// gets.
pub fn secure_private_directory(status: &UnixStatus, effective_uid: u32) -> (r: Result<
    u32,
    SecretFault,
>)
    ensures
        match r {
            Ok(mode) => migration_fault(PrivateObject::Directory, *status, effective_uid) is None
                && mode == private_mode(PrivateObject::Directory),
            Err(f) => migration_fault(PrivateObject::Directory, *status, effective_uid) == Some(f),
        },
{
    if !status.is_dir {
        return Err(SecretFault::NotDirectory);
    }
    match validate_owner_as(status.uid, effective_uid) {
        Ok(()) => Ok(PRIVATE_DIRECTORY_MODE),
        Err(f) => Err(f),
    }
}

/// Checks that an open file is a regular file of the user, whatever its permissions.
pub fn open_owned_nofollow_read(status: &UnixStatus, effective_uid: u32) -> (r: Result<
    (),
    SecretFault,
>)
    ensures
        match r {
            Ok(()) => status.is_file && status.uid == effective_uid,
            Err(f) => f == (if !status.is_file {
                SecretFault::NotOwnedRegularFile
            } else {
                SecretFault::ForeignOwner { effective_uid, uid: status.uid }
            }) && (!status.is_file || status.uid != effective_uid),
        },
{
    if !status.is_file {
        return Err(SecretFault::NotOwnedRegularFile);
    }
    validate_owner_as(status.uid, effective_uid)
}

// ---------------------------------------------------------------------------
// Windows
// ---------------------------------------------------------------------------

/// The account LocalSystem.
pub const LOCAL_SYSTEM_SID: &'static str = "S-1-5-18";

/// The group Administrators.
pub const ADMINISTRATORS_SID: &'static str = "S-1-5-32-544";

/// All rights to a file.
pub const FILE_ALL_ACCESS: u32 = 0x1f01ff;

/// The control bit of an access list that does not inherit.
pub const DACL_PROTECTED: u16 = 0x1000;

/// The type of a rule that allows access.
pub const ALLOWED_RULE: u8 = 0;

/// The type of a rule that denies access.
pub const DENIED_RULE: u8 = 1;

/// The least size of a rule that allows access.
pub const ALLOWED_RULE_SIZE: u16 = 12;

/// A rule of an access list.
#[derive(Debug)]
pub enum AccessRule {
    /// Denies access.
    Denied,
    /// Allows an account the access in a mask.
    Allowed { sid: String, mask: u32 },
    /// Anything else.
    Unsupported,
}

/// An access list with the control bits of its descriptor.
#[derive(Debug)]
pub struct AccessList {
    pub control: u16,
    pub rules: Vec<AccessRule>,
}

/// The forms of a rule.
#[derive(Clone, Copy, Debug, PartialEq, Eq, Structural)]
pub enum RuleForm {
    Denied,
    Allowed,
    Unsupported,
}

/// Tells the form of a rule by its type and its size.
pub fn rule_form(rule_type: u8, size: u16) -> (form: RuleForm)
    ensures
        form == (if rule_type == DENIED_RULE {
            RuleForm::Denied
        } else if rule_type == ALLOWED_RULE && size >= ALLOWED_RULE_SIZE {
            RuleForm::Allowed
        } else {
            RuleForm::Unsupported
        }),
{
    if rule_type == DENIED_RULE {
        RuleForm::Denied
    } else if rule_type != ALLOWED_RULE || size < ALLOWED_RULE_SIZE {
        RuleForm::Unsupported
    } else {
        RuleForm::Allowed
    }
}

/// A rule of an access list.
pub enum RuleView {
    Denied,
    Allowed { sid: Seq<char>, mask: u32 },
    Unsupported,
}

impl View for AccessRule {
    type V = RuleView;

    open spec fn view(&self) -> RuleView {
        match self {
            AccessRule::Denied => RuleView::Denied,
            AccessRule::Allowed { sid, mask } => RuleView::Allowed { sid: sid@, mask: *mask },
            AccessRule::Unsupported => RuleView::Unsupported,
        }
    }
}

/// Whether the owner policy accepts an owner: the user, or the group that the access list trusts
/// in any case.
pub open spec fn owner_trusted(owner: Option<Seq<char>>, user: Seq<char>) -> bool {
    owner is Some && (owner->Some_0 == user || owner->Some_0 == ADMINISTRATORS_SID@)
}

/// Whether an account may appear in the access list.
pub open spec fn account_trusted(sid: Seq<char>, user: Seq<char>) -> bool {
    sid == user || sid == LOCAL_SYSTEM_SID@ || sid == ADMINISTRATORS_SID@
}

/// Whether a mask grants all rights to a file.
pub open spec fn full_control(mask: u32) -> bool {
    mask & FILE_ALL_ACCESS == FILE_ALL_ACCESS
}

/// What is wrong with one rule.
pub open spec fn rule_fault(rule: RuleView, user: Seq<char>) -> Option<SecretFault> {
    match rule {
        RuleView::Denied => None,
        RuleView::Unsupported => Some(SecretFault::UnsupportedRule),
        RuleView::Allowed { sid, mask } => if !account_trusted(sid, user) {
            Some(SecretFault::OutsideTrustSet)
        } else if !full_control(mask) {
            Some(SecretFault::NoncanonicalRule)
        } else {
            None
        },
    }
}

/// What is wrong with the first rule that is wrong, from rule `k` on.
pub open spec fn rules_fault(rules: Seq<AccessRule>, user: Seq<char>, k: int) -> Option<SecretFault>
    decreases rules.len() - k,
{
    if k < 0 || k >= rules.len() {
        None
    } else if rule_fault(rules[k]@, user) is Some {
        rule_fault(rules[k]@, user)
    } else {
        rules_fault(rules, user, k + 1)
    }
}

/// Whether one of the first `n` rules allows the user access.
pub open spec fn grants_user(rules: Seq<AccessRule>, user: Seq<char>, n: int) -> bool {
    exists|i: int|
        0 <= i < n && (#[trigger] rules[i]@) is Allowed && rules[i]@->Allowed_sid == user
}

/// What is wrong with the security of a Windows object: its owner must be trusted, and it must have
/// an access list of its own that grants full control, to the user and trusted accounts alone.
pub open spec fn security_fault(
    owner: Option<Seq<char>>,
    list: Option<(u16, Seq<AccessRule>)>,
    user: Seq<char>,
) -> Option<SecretFault> {
    if !owner_trusted(owner, user) {
        Some(SecretFault::UntrustedOwner)
    } else {
        match list {
            None => Some(SecretFault::NullAccessList),
            Some((control, rules)) => if control & DACL_PROTECTED == 0 {
                Some(SecretFault::InheritedAccessList)
            } else if rules_fault(rules, user, 0) is Some {
                rules_fault(rules, user, 0)
            } else if !grants_user(rules, user, rules.len() as int) {
                Some(SecretFault::NoFullControl)
            } else {
                None
            },
        }
    }
}

/// An object that passes grants nothing to an account outside the trusted three, and full control
/// to the user.
pub proof fn law_accepted_lists_grant_trusted_accounts_alone(
    owner: Option<Seq<char>>,
    list: Option<(u16, Seq<AccessRule>)>,
    user: Seq<char>,
)
    requires
        security_fault(owner, list, user) is None,
    ensures
        list is Some,
        owner == Some(user) || owner == Some(ADMINISTRATORS_SID@),
        forall|i: int|
            0 <= i < list->Some_0.1.len() && (#[trigger] list->Some_0.1[i]@) is Allowed ==> {
                &&& account_trusted(list->Some_0.1[i]@->Allowed_sid, user)
                &&& full_control(list->Some_0.1[i]@->mask)
            },
        exists|i: int|
            0 <= i < list->Some_0.1.len() && (#[trigger] list->Some_0.1[i]@) is Allowed
                && list->Some_0.1[i]@->Allowed_sid == user && full_control(
                list->Some_0.1[i]@->mask,
            ),
{
    let rules = list->Some_0.1;
    assert forall|i: int| 0 <= i < rules.len() implies rule_fault(
        #[trigger] rules[i]@,
        user,
    ) is None by {
        lemma_no_rule_fault(rules, user, 0, i);
    }
    let i = choose|i: int|
        0 <= i < rules.len() && (#[trigger] rules[i]@) is Allowed && rules[i]@->Allowed_sid == user;
    assert(rule_fault(rules[i]@, user) is None);
}

proof fn lemma_no_rule_fault(rules: Seq<AccessRule>, user: Seq<char>, k: int, i: int)
    requires
        0 <= k <= i < rules.len(),
        rules_fault(rules, user, k) is None,
    ensures
        rule_fault(rules[i]@, user) is None,
    decreases i - k,
{
    if k < i {
        lemma_no_rule_fault(rules, user, k + 1, i);
    }
}

/// Decides whether the owner policy accepts an owner.
pub fn owner_matches_private_policy(owner: Option<&str>, user: &str) -> (r: bool)
    ensures
        r == owner_trusted(
            match owner {
                Some(sid) => Some(sid@),
                None => None,
            },
            user@,
        ),
{
    match owner {
        Some(sid) => text_eq(sid, user) || text_eq(sid, ADMINISTRATORS_SID),
        None => false,
    }
}

/// Checks the rules of an access list and says whether one of them is for the user.
fn check_rules(rules: &Vec<AccessRule>, user: &str) -> (r: Result<bool, SecretFault>)
    ensures
        match r {
            Ok(granted) => rules_fault(rules@, user@, 0) is None && granted == grants_user(
                rules@,
                user@,
                rules@.len() as int,
            ),
            Err(f) => rules_fault(rules@, user@, 0) == Some(f),
        },
{
    let mut granted: bool = false;
    let mut i: usize = 0;
    while i < rules.len()
        invariant
            i <= rules.len(),
            rules_fault(rules@, user@, 0) == rules_fault(rules@, user@, i as int),
            granted == grants_user(rules@, user@, i as int),
        decreases rules.len() - i,
    {
        let ghost rule = rules@[i as int]@;
        match &rules[i] {
            AccessRule::Denied => {},
            AccessRule::Unsupported => {
                assert(rule_fault(rule, user@) is Some);
                return Err(SecretFault::UnsupportedRule);
            },
            AccessRule::Allowed { sid, mask } => {
                let current: bool = text_eq(sid.as_str(), user);
                if !(current || text_eq(sid.as_str(), LOCAL_SYSTEM_SID) || text_eq(
                    sid.as_str(),
                    ADMINISTRATORS_SID,
                )) {
                    assert(rule_fault(rule, user@) is Some);
                    return Err(SecretFault::OutsideTrustSet);
                }
                if *mask & FILE_ALL_ACCESS != FILE_ALL_ACCESS {
                    assert(rule_fault(rule, user@) is Some);
                    return Err(SecretFault::NoncanonicalRule);
                }
                granted = granted || current;
            },
        }
        assert(rule_fault(rule, user@) is None);
        assert(grants_user(rules@, user@, i + 1) == (grants_user(rules@, user@, i as int)
            || (rule is Allowed && rule->Allowed_sid == user@))) by {
            assert(rules@[i as int]@ == rule);
            if grants_user(rules@, user@, i + 1) {
                let j = choose|j: int|
                    0 <= j < i + 1 && (#[trigger] rules@[j]@) is Allowed
                        && rules@[j]@->Allowed_sid == user@;
            }
        }
        i = i + 1;
    }
    Ok(granted)
}

/// Checks the owner and the access list of a Windows object.
pub fn validate_private_security(
    owner: Option<&str>,
    list: Option<&AccessList>,
    user: &str,
) -> (r: Result<(), SecretFault>)
    ensures
        ({
            let owner_view = match owner {
                Some(sid) => Some(sid@),
                None => None,
            };
            let list_view = match list {
                Some(list) => Some((list.control, list.rules@)),
                None => None,
            };
            match r {
                Ok(()) => security_fault(owner_view, list_view, user@) is None,
                Err(f) => security_fault(owner_view, list_view, user@) == Some(f),
            }
        }),
{
    if !owner_matches_private_policy(owner, user) {
        return Err(SecretFault::UntrustedOwner);
    }
    let list: &AccessList = match list {
        Some(list) => list,
        None => {
            return Err(SecretFault::NullAccessList);
        },
    };
    if list.control & DACL_PROTECTED == 0 {
        return Err(SecretFault::InheritedAccessList);
    }
    let granted: bool = match check_rules(&list.rules, user) {
        Ok(granted) => granted,
        Err(f) => {
            return Err(f);
        },
    };
    if !granted {
        return Err(SecretFault::NoFullControl);
    }
    Ok(())
}

/// The security descriptor that new private objects get: owned by the user, with an access list of
/// its own that grants full control to the user, LocalSystem and Administrators and that ordinary
/// descendants inherit.
pub open spec fn private_descriptor(user: Seq<char>) -> Seq<char> {
    "O:"@ + user + "D:P(A;OICI;FA;;;"@ + user + ")(A;OICI;FA;;;SY)(A;OICI;FA;;;BA)"@
}

/// Writes the security descriptor that new private objects get.
pub fn private_security_descriptor(user: &str) -> (text: String)
    ensures
        text@ == private_descriptor(user@),
{
    "O:".to_owned().concat(user).concat("D:P(A;OICI;FA;;;").concat(user).concat(
        ")(A;OICI;FA;;;SY)(A;OICI;FA;;;BA)",
    )
}

/// An object is private exactly where it is of its kind, belongs to the user, and has the mode 0600
/// as a file or 0700 as a directory.
pub proof fn law_private_objects(object: PrivateObject, status: UnixStatus, effective_uid: u32)
    ensures
        private_fault(object, status, effective_uid) is None <==> {
            &&& status.uid == effective_uid
            &&& match object {
                PrivateObject::File => status.is_file && status.mode % 512 == 6 * 64,
                PrivateObject::Directory => status.is_dir && status.mode % 512 == 7 * 64,
            }
        },
        migration_fault(object, status, effective_uid) is None <==> {
            &&& status.uid == effective_uid
            &&& match object {
                PrivateObject::File => status.is_file,
                PrivateObject::Directory => status.is_dir,
            }
        },
{
}

/// An access list is accepted exactly where its owner is the user or the administrators, it does not
/// inherit, every rule denies or gives full control to the user, the system or the administrators,
/// and one rule gives it to the user.
pub proof fn law_accepted_lists(
    owner: Option<Seq<char>>,
    list: Option<(u16, Seq<AccessRule>)>,
    user: Seq<char>,
)
    ensures
        security_fault(owner, list, user) is None <==> {
            &&& owner == Some(user) || owner == Some(ADMINISTRATORS_SID@)
            &&& list is Some
            &&& list->Some_0.0 & DACL_PROTECTED != 0
            &&& forall|i: int|
                0 <= i < list->Some_0.1.len() ==> match (#[trigger] list->Some_0.1[i])@ {
                    RuleView::Denied => true,
                    RuleView::Unsupported => false,
                    RuleView::Allowed { sid, mask } => {
                        &&& sid == user || sid == LOCAL_SYSTEM_SID@ || sid == ADMINISTRATORS_SID@
                        &&& mask & FILE_ALL_ACCESS == FILE_ALL_ACCESS
                    },
                }
            &&& exists|i: int|
                0 <= i < list->Some_0.1.len() && (#[trigger] list->Some_0.1[i]@) is Allowed
                    && list->Some_0.1[i]@->Allowed_sid == user
        },
{
    if list is Some {
        let rules = list->Some_0.1;
        if rules_fault(rules, user, 0) is None {
            assert forall|i: int| 0 <= i < rules.len() implies rule_fault(
                (#[trigger] rules[i])@,
                user,
            ) is None by {
                lemma_no_rule_fault(rules, user, 0, i);
            }
        } else {
            lemma_some_rule_fault(rules, user, 0);
        }
    }
}

proof fn lemma_some_rule_fault(rules: Seq<AccessRule>, user: Seq<char>, k: int)
    requires
        0 <= k,
        rules_fault(rules, user, k) is Some,
    ensures
        exists|i: int| k <= i < rules.len() && rule_fault((#[trigger] rules[i])@, user) is Some,
    decreases rules.len() - k,
{
    if rule_fault(rules[k]@, user) is None {
        lemma_some_rule_fault(rules, user, k + 1);
    } else {
        assert(rule_fault(rules[k]@, user) is Some);
    }
}

/// An object of the wrong kind is refused first, then one of another owner, then one with other
/// permissions; what was found is named.
pub proof fn law_refused_objects(object: PrivateObject, status: UnixStatus, effective_uid: u32)
    ensures
        ({
            let fault = private_fault(object, status, effective_uid);
            let right_kind = match object {
                PrivateObject::File => status.is_file,
                PrivateObject::Directory => status.is_dir,
            };
            &&& !right_kind ==> fault == Some(
                match object {
                    PrivateObject::File => SecretFault::NotRegularFile,
                    PrivateObject::Directory => SecretFault::NotDirectory,
                },
            )
            &&& right_kind && status.uid != effective_uid ==> fault == Some(
                SecretFault::ForeignOwner { effective_uid, uid: status.uid },
            )
            &&& right_kind && status.uid == effective_uid && object is File && status.mode % 512
                != 6 * 64 ==> fault == Some(
                SecretFault::WrongFileMode { mode: (status.mode % 512) as u32 },
            )
            &&& right_kind && status.uid == effective_uid && object is Directory && status.mode
                % 512 != 7 * 64 ==> fault == Some(
                SecretFault::WrongDirectoryMode { mode: (status.mode % 512) as u32 },
            )
            &&& !right_kind || status.uid != effective_uid ==> migration_fault(
                object,
                status,
                effective_uid,
            ) == fault
        }),
{
}

/// The first rule at fault decides, and a list is judged rule by rule: one without fault in front
/// changes nothing.
pub proof fn law_the_first_rule_at_fault_decides(
    rules: Seq<AccessRule>,
    user: Seq<char>,
    k: int,
    i: int,
)
    requires
        0 <= k <= i < rules.len(),
        forall|j: int| k <= j < i ==> rule_fault((#[trigger] rules[j])@, user) is None,
        rule_fault(rules[i]@, user) is Some,
    ensures
        rules_fault(rules, user, k) == rule_fault(rules[i]@, user),
    decreases i - k,
{
    if k < i {
        assert(rule_fault(rules[k]@, user) is None);
        law_the_first_rule_at_fault_decides(rules, user, k + 1, i);
    }
}

/// What is wrong with one rule, and with the whole: the owner, a missing list and an inherited one come
/// before the rules, and rules without fault that grant the user nothing after them.
pub proof fn law_refused_lists(
    owner: Option<Seq<char>>,
    control: u16,
    rules: Seq<AccessRule>,
    user: Seq<char>,
    sid: Seq<char>,
    mask: u32,
)
    ensures
        rule_fault(RuleView::Denied, user) is None,
        rule_fault(RuleView::Unsupported, user) == Some(SecretFault::UnsupportedRule),
        !account_trusted(sid, user) ==> rule_fault(RuleView::Allowed { sid, mask }, user) == Some(
            SecretFault::OutsideTrustSet,
        ),
        account_trusted(sid, user) && mask & FILE_ALL_ACCESS != FILE_ALL_ACCESS ==> rule_fault(
            RuleView::Allowed { sid, mask },
            user,
        ) == Some(SecretFault::NoncanonicalRule),
        owner != Some(user) && owner != Some(ADMINISTRATORS_SID@) ==> security_fault(
            owner,
            Some((control, rules)),
            user,
        ) == Some(SecretFault::UntrustedOwner),
        security_fault(Some(user), None, user) == Some(SecretFault::NullAccessList),
        control & DACL_PROTECTED == 0 ==> security_fault(Some(user), Some((control, rules)), user)
            == Some(SecretFault::InheritedAccessList),
        control & DACL_PROTECTED != 0 && rules_fault(rules, user, 0) is Some ==> security_fault(
            Some(user),
            Some((control, rules)),
            user,
        ) == rules_fault(rules, user, 0),
        control & DACL_PROTECTED != 0 && rules.len() == 0 ==> security_fault(
            Some(user),
            Some((control, rules)),
            user,
        ) == Some(SecretFault::NoFullControl),
{
}

/// The descriptor makes the user the owner, protects the list, and grants full control, also below, to
/// the user, the system and the administrators.
pub proof fn law_descriptors_name_user_system_and_administrators(user: Seq<char>)
    ensures
        private_descriptor(user) == "O:"@ + user + "D:P"@ + ("(A;OICI;FA;;;"@ + user + ")"@) + (
        "(A;OICI;FA;;;"@ + "SY"@ + ")"@) + ("(A;OICI;FA;;;"@ + "BA"@ + ")"@),
{
    reveal_strlit("D:P(A;OICI;FA;;;");
    reveal_strlit("D:P");
    reveal_strlit("(A;OICI;FA;;;");
    reveal_strlit(")(A;OICI;FA;;;SY)(A;OICI;FA;;;BA)");
    reveal_strlit(")");
    reveal_strlit("SY");
    reveal_strlit("BA");
    assert("D:P(A;OICI;FA;;;"@ =~= "D:P"@ + "(A;OICI;FA;;;"@);
    assert(")(A;OICI;FA;;;SY)(A;OICI;FA;;;BA)"@ =~= ")"@ + ("(A;OICI;FA;;;"@ + "SY"@ + ")"@) + (
    "(A;OICI;FA;;;"@ + "BA"@ + ")"@));
    assert(private_descriptor(user) =~= "O:"@ + user + ("D:P"@ + "(A;OICI;FA;;;"@) + user + (")"@ + (
    "(A;OICI;FA;;;"@ + "SY"@ + ")"@) + ("(A;OICI;FA;;;"@ + "BA"@ + ")"@)));
    assert(private_descriptor(user) =~= "O:"@ + user + "D:P"@ + ("(A;OICI;FA;;;"@ + user + ")"@) + (
    "(A;OICI;FA;;;"@ + "SY"@ + ")"@) + ("(A;OICI;FA;;;"@ + "BA"@ + ")"@));
}

} // verus!
