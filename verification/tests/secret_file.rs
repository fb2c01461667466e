use arc_crypto::secret_file::{
    acknowledge_desktop_shutdown_receipt, arm_desktop_shutdown_receipt, bound_file_nonce,
    cancel_desktop_shutdown_receipt_before_spawn, check_existing_desktop_shutdown_ack,
    check_receipt_size, consume_desktop_shutdown_ack, create_private_directory_tree,
    desktop_shutdown_ack_payload, desktop_shutdown_bound_payload, desktop_shutdown_lifecycle_state,
    desktop_shutdown_receipt_exists, desktop_shutdown_receipt_payload,
    durably_publish_existing_private_no_replace, load_desktop_shutdown_receipt_nonce,
    namespace_path_digest, namespace_path_digest_folded, open_owned_nofollow_read,
    open_private_owned_migration, owner_matches_private_policy, path_digest,
    private_directory_namespace_lock_name, private_directory_namespace_rebarrier_name,
    private_directory_staging_name, private_security_descriptor,
    restore_private_directory_namespace_rebarrier, rule_form, secure_private_directory,
    secure_private_directory_tree, staging_name, validate_desktop_shutdown_ack,
    validate_desktop_shutdown_receipt, validate_owner_as, validate_private,
    validate_private_directory, validate_private_directory_parent, validate_private_security,
    wide_path_bytes, windows_extended_path, AccessList, AccessRule, DesktopShutdownLifecycleState,
    FaultKind, NameStatus, NodeIdentity, PathPart, PathPrefix, PrefixKind, PrivateObject,
    RestoreAction, RuleForm, SecretFault, ShutdownFile, TreeEvent, TreePart, TreeStep, TreeWalk,
    UnixStatus, WindowsPath,
};
use sha2::{Digest, Sha256};

// ── Windows paths ──

fn wide(text: &str) -> Vec<u16> {
    text.encode_utf16().collect()
}

fn windows_path(prefix: Option<(PrefixKind, &str)>, has_root: bool, parts: &[&str]) -> WindowsPath {
    WindowsPath {
        prefix: prefix.map(|(kind, text)| PathPrefix { kind, text: wide(text) }),
        has_root,
        parts: parts
            .iter()
            .map(|part| match *part {
                "." => PathPart::Current,
                ".." => PathPart::Parent,
                name => PathPart::Name(wide(name)),
            })
            .collect(),
    }
}

fn current_directory() -> WindowsPath {
    windows_path(Some((PrefixKind::Disk, r"C:")), true, &["work", "here"])
}

fn extended(path: &WindowsPath) -> Result<Vec<u16>, SecretFault> {
    windows_extended_path(path, &current_directory())
}

fn decoded(path: &WindowsPath) -> String {
    let mut wide = extended(path).unwrap();
    assert_eq!(wide.pop(), Some(0));
    String::from_utf16(&wide).unwrap()
}

#[test]
fn windows_extended_path_is_lexical_and_rejects_partial_or_device_paths() {
    let disk = Some((PrefixKind::Disk, r"C:"));
    assert_eq!(
        decoded(&windows_path(disk, true, &["arc", ".", "state", "..", "wal"])),
        r"\\?\C:\arc\wal"
    );
    assert_eq!(
        decoded(&windows_path(
            Some((PrefixKind::Unc, r"\\server\share")),
            true,
            &["arc", "..", "state"]
        )),
        r"\\?\UNC\server\share\state"
    );
    assert!(extended(&windows_path(disk, false, &["relative"])).is_err());
    assert!(extended(&windows_path(None, true, &["root-relative"])).is_err());
    assert!(extended(&windows_path(
        Some((PrefixKind::DeviceNamespace, r"\\.\PhysicalDrive0")),
        true,
        &[]
    ))
    .is_err());
    assert_eq!(
        decoded(&windows_path(Some((PrefixKind::VerbatimDisk, r"\\?\C:")), true, &["arc"])),
        r"\\?\C:\arc"
    );
    assert!(extended(&windows_path(
        Some((PrefixKind::Verbatim, r"\\?\GLOBALROOT")),
        true,
        &["Device", "Harddisk0"]
    ))
    .is_err());

    let relative = decoded(&windows_path(None, false, &["arc-relative", "state.wal"]));
    assert!(relative.starts_with(r"\\?\"));
    assert!(relative.ends_with(r"\arc-relative\state.wal"));
}

#[test]
fn windows_path_refusals_name_their_reason() {
    let disk = Some((PrefixKind::Disk, r"C:"));
    assert_eq!(extended(&windows_path(None, false, &[])), Err(SecretFault::EmptyPath));
    assert_eq!(
        extended(&windows_path(Some((PrefixKind::Verbatim, r"\\?\x")), true, &[])),
        Err(SecretFault::DeviceNamespace)
    );
    assert_eq!(
        extended(&windows_path(disk, false, &["x"])),
        Err(SecretFault::PartiallyQualified)
    );
    assert_eq!(
        extended(&windows_path(disk, true, &["a", "..", ".."])),
        Err(SecretFault::EscapesRoot)
    );
    let dots = WindowsPath {
        prefix: Some(PathPrefix { kind: PrefixKind::VerbatimDisk, text: wide(r"\\?\C:") }),
        has_root: true,
        parts: vec![PathPart::Name(wide(".."))],
    };
    assert_eq!(extended(&dots), Err(SecretFault::DotSegment));
    assert_eq!(
        extended(&windows_path(disk, true, &["a\0b"])),
        Err(SecretFault::InteriorNul)
    );
    assert_eq!(
        windows_extended_path(
            &windows_path(None, false, &["x"]),
            &windows_path(None, true, &["cwd"])
        ),
        Err(SecretFault::UnqualifiedCurrentDirectory)
    );
}

#[test]
fn windows_paths_are_verbatim_and_closed_by_one_nul() {
    let path = windows_path(None, false, &[".", "a", "..", "b"]);
    let out = extended(&path).unwrap();
    assert_eq!(String::from_utf16(&out).unwrap(), "\\\\?\\C:\\work\\here\\b\0");
    assert_eq!(out.iter().filter(|unit| **unit == 0).count(), 1);
}

// ── Owners and permissions ──

fn status(is_file: bool, uid: u32, mode: u32) -> UnixStatus {
    UnixStatus { is_file, is_dir: !is_file, uid, mode }
}

#[test]
fn private_files_are_of_the_owner_alone() {
    assert_eq!(validate_private(&status(true, 7, 0o100600), 7), Ok(()));
    assert_eq!(
        validate_private(&status(true, 7, 0o100640), 7),
        Err(SecretFault::WrongFileMode { mode: 0o640 })
    );
    assert_eq!(validate_private(&status(false, 7, 0o600), 7), Err(SecretFault::NotRegularFile));
    assert_eq!(
        validate_private(&status(true, 8, 0o600), 7),
        Err(SecretFault::ForeignOwner { effective_uid: 7, uid: 8 })
    );
    assert_eq!(
        SecretFault::WrongFileMode { mode: 0o640 }.message("file", "/s"),
        "private file /s must have mode 0600 (found 0640)"
    );
}

#[test]
fn private_directories_are_of_the_owner_alone() {
    assert_eq!(validate_private_directory(&status(false, 7, 0o40700), 7), Ok(()));
    assert_eq!(
        validate_private_directory(&status(false, 7, 0o40750), 7),
        Err(SecretFault::WrongDirectoryMode { mode: 0o750 })
    );
    assert_eq!(
        validate_private_directory(&status(true, 7, 0o700), 7),
        Err(SecretFault::NotDirectory)
    );
    assert_eq!(
        SecretFault::WrongDirectoryMode { mode: 0o5 }.message("directory", "/d"),
        "private directory /d must have mode 0700 (found 0005)"
    );
}

#[test]
fn foreign_owners_are_named() {
    let fault = validate_owner_as(1001, 1000).unwrap_err();
    assert_eq!(fault.kind(), FaultKind::PermissionDenied);
    assert_eq!(
        fault.message(PrivateObject::File.word(), "/k/secret.json"),
        "private file /k/secret.json must be owned by effective uid 1000 (found uid 1001)"
    );
    assert_eq!(validate_owner_as(1000, 1000), Ok(()));
}

#[test]
fn owned_objects_can_be_tightened() {
    assert_eq!(open_private_owned_migration(&status(true, 7, 0o644), 7), Ok(0o600));
    assert_eq!(secure_private_directory(&status(false, 7, 0o755), 7), Ok(0o700));
    assert!(open_private_owned_migration(&status(true, 8, 0o644), 7).is_err());
    assert_eq!(
        secure_private_directory(&status(true, 7, 0o755), 7),
        Err(SecretFault::NotDirectory)
    );
    assert_eq!(open_owned_nofollow_read(&status(true, 7, 0o644), 7), Ok(()));
    assert_eq!(
        open_owned_nofollow_read(&status(false, 7, 0o644), 7),
        Err(SecretFault::NotOwnedRegularFile)
    );
}

#[test]
fn windows_owner_policy_rejects_every_sid_outside_the_explicit_trust_set() {
    let user = "S-1-5-21-111-222-333-1001";
    assert!(owner_matches_private_policy(Some(user), user));
    assert!(
        owner_matches_private_policy(Some("S-1-5-32-544"), user),
        "Administrators is already an explicit full-control DACL trustee"
    );
    assert!(!owner_matches_private_policy(Some("S-1-5-32-545"), user));
    assert!(!owner_matches_private_policy(Some("S-1-5-18"), user));
    assert!(!owner_matches_private_policy(Some("S-1-5-21-111-222-333-1002"), user));
    assert!(!owner_matches_private_policy(None, user));
}

fn allow(sid: &str, mask: u32) -> AccessRule {
    AccessRule::Allowed { sid: sid.to_string(), mask }
}

#[test]
fn windows_access_lists_grant_the_trusted_accounts_alone() {
    let user = "S-1-5-21-1-2-3-1001";
    let check = |control: u16, rules: Vec<AccessRule>| {
        validate_private_security(Some(user), Some(&AccessList { control, rules }), user)
    };
    let full = 0x1f01ff;
    assert_eq!(
        check(
            0x1004,
            vec![
                AccessRule::Denied,
                allow(user, full),
                allow("S-1-5-18", full),
                allow("S-1-5-32-544", full)
            ]
        ),
        Ok(())
    );
    assert_eq!(check(4, vec![allow(user, full)]), Err(SecretFault::InheritedAccessList));
    assert_eq!(
        check(0x1000, vec![AccessRule::Unsupported]),
        Err(SecretFault::UnsupportedRule)
    );
    assert_eq!(
        check(0x1000, vec![allow(user, full), allow("S-1-1-0", full)]),
        Err(SecretFault::OutsideTrustSet)
    );
    assert_eq!(check(0x1000, vec![allow(user, 1)]), Err(SecretFault::NoncanonicalRule));
    assert_eq!(
        check(0x1000, vec![allow("S-1-5-18", full)]),
        Err(SecretFault::NoFullControl)
    );
    assert_eq!(
        validate_private_security(Some(user), None, user),
        Err(SecretFault::NullAccessList)
    );
    assert_eq!(
        validate_private_security(Some("S-1-1-0"), None, user),
        Err(SecretFault::UntrustedOwner)
    );
    assert_eq!(
        SecretFault::UntrustedOwner.message("file", "/s"),
        "private file is not owned by the current Windows user or trusted Administrators group: /s"
    );
}

#[test]
fn windows_rule_forms_go_by_type_and_size() {
    assert_eq!(rule_form(1, 0), RuleForm::Denied);
    assert_eq!(rule_form(0, 12), RuleForm::Allowed);
    assert_eq!(rule_form(0, 11), RuleForm::Unsupported);
    assert_eq!(rule_form(5, 40), RuleForm::Unsupported);
}

#[test]
fn windows_private_objects_get_an_inheritable_protected_list() {
    assert_eq!(
        private_security_descriptor("S-1-5-21-1"),
        "O:S-1-5-21-1D:P(A;OICI;FA;;;S-1-5-21-1)(A;OICI;FA;;;SY)(A;OICI;FA;;;BA)"
    );
}

// ── Directory trees ──

/// Runs a walk against a tree in memory, in which the components up to `existing` are there, and
/// returns the steps.
fn run(walk: &TreeWalk, existing: usize) -> Vec<TreeStep> {
    let mut step = walk.first();
    let mut steps = vec![step];
    loop {
        let event = match step {
            TreeStep::Check(k) | TreeStep::Inspect(k) => {
                if k <= existing {
                    TreeEvent::Done
                } else {
                    TreeEvent::Absent
                }
            }
            TreeStep::Finished | TreeStep::Refused(..) | TreeStep::Stopped => return steps,
            _ => TreeEvent::Done,
        };
        step = walk.next(step, event);
        steps.push(step);
    }
}

#[test]
fn operator_private_directory_tree_creates_nested_components_durably() {
    // root/one/two/three, with root there.
    let parts = [TreePart::Anchor, TreePart::Name, TreePart::Name, TreePart::Name, TreePart::Name];
    let tree = create_private_directory_tree(&parts, 0).unwrap();
    assert_eq!(tree.kept, vec![0, 1, 2, 3, 4]);
    assert_eq!(
        run(&tree.walk, 1),
        vec![
            TreeStep::Inspect(4),
            TreeStep::Inspect(3),
            TreeStep::Inspect(2),
            TreeStep::Inspect(1),
            TreeStep::Resolve(1),
            TreeStep::Create(2),
            TreeStep::Create(3),
            TreeStep::Create(4),
            TreeStep::SecureLeaf,
            TreeStep::SyncLeaf,
            TreeStep::Finished,
        ]
    );
}

#[test]
fn operator_private_directory_tree_rejects_parent_traversal_before_mutation() {
    // root/missing/../target
    let parts = [
        TreePart::Anchor,
        TreePart::Name,
        TreePart::Name,
        TreePart::Parent,
        TreePart::Name,
    ];
    let fault = create_private_directory_tree(&parts, 0).unwrap_err();
    assert_eq!(fault, SecretFault::ParentTraversal);
    assert_eq!(fault.kind(), FaultKind::InvalidInput);
    assert_eq!(
        fault.message("directory", "/r/missing/../target"),
        "private directory path must not contain '..': /r/missing/../target"
    );
}

#[test]
fn operator_trees_need_a_leaf_and_drop_current_directories() {
    assert_eq!(
        create_private_directory_tree(&[TreePart::Anchor], 0).unwrap_err(),
        SecretFault::NoLeaf
    );
    assert_eq!(
        create_private_directory_tree(&[TreePart::Current], 3).unwrap_err(),
        SecretFault::NoLeaf
    );
    let tree =
        create_private_directory_tree(&[TreePart::Current, TreePart::Name, TreePart::Current], 2)
            .unwrap();
    assert_eq!(tree.kept, vec![1]);
    assert_eq!(tree.walk.named, vec![true, true, true]);
}

#[test]
fn operator_trees_may_hang_below_links() {
    let tree = create_private_directory_tree(&[TreePart::Anchor, TreePart::Name], 0).unwrap();
    assert_eq!(tree.walk.next(TreeStep::Inspect(1), TreeEvent::Link), TreeStep::Resolve(1));
    assert_eq!(
        tree.walk.next(TreeStep::Inspect(1), TreeEvent::NotDirectory),
        TreeStep::Refused(SecretFault::NonDirectoryComponent, 1)
    );
    assert_eq!(
        tree.walk.next(TreeStep::Resolve(1), TreeEvent::NotDirectory),
        TreeStep::Refused(SecretFault::AncestorNotDirectory, 1)
    );
    assert_eq!(
        tree.walk.next(TreeStep::Inspect(0), TreeEvent::Absent),
        TreeStep::Refused(SecretFault::NoExistingAncestor, 1)
    );
}

#[test]
fn link_free_trees_refuse_links_and_unnamed_components() {
    let walk =
        secure_private_directory_tree(&[TreePart::Anchor, TreePart::Name, TreePart::Parent]);
    assert_eq!(walk.named, vec![true, false]);
    assert_eq!(walk.first(), TreeStep::Check(0));
    assert_eq!(
        walk.next(TreeStep::Check(1), TreeEvent::Link),
        TreeStep::Refused(SecretFault::LinkedComponent, 1)
    );
    assert_eq!(
        walk.next(TreeStep::Inspect(1), TreeEvent::Link),
        TreeStep::Refused(SecretFault::LinkedComponent, 1)
    );
    assert_eq!(
        walk.next(TreeStep::Inspect(2), TreeEvent::Absent),
        TreeStep::Refused(SecretFault::UnnamedComponent, 2)
    );
}

#[test]
fn components_that_appear_meanwhile_are_secured_and_made_durable() {
    let walk = secure_private_directory_tree(&[TreePart::Anchor, TreePart::Name, TreePart::Name]);
    let step = walk.next(TreeStep::Create(1), TreeEvent::AlreadyExists);
    assert_eq!(step, TreeStep::SecureExisting(1));
    let step = walk.next(step, TreeEvent::Done);
    assert_eq!(step, TreeStep::SyncExisting(1));
    assert_eq!(walk.next(step, TreeEvent::Done), TreeStep::Create(2));
    assert_eq!(walk.next(TreeStep::Create(2), TreeEvent::Failed), TreeStep::Stopped);
    let steps = run(&walk, 2);
    assert_eq!(steps.last(), Some(&TreeStep::Finished));
    assert!(!steps.contains(&TreeStep::Create(2)));
}

// ── Names ──

fn sha256_hex(data: &[u8]) -> String {
    hex::encode(Sha256::digest(data))
}

#[test]
fn digests_are_sha256_in_hexadecimal() {
    assert_eq!(
        path_digest(b"abc"),
        "ba7816bf8f01cfea414140de5dae2223b00361a396177a9cb410ff61f20015ad"
    );
    assert_eq!(namespace_path_digest(b"/data", b"v3"), sha256_hex(b"/data\xffv3"));
    assert_eq!(
        namespace_path_digest_folded(b"/data", "Data-V3"),
        namespace_path_digest_folded(b"/data", "data-v3")
    );
    assert_eq!(
        namespace_path_digest_folded(b"/data", "data-v3"),
        sha256_hex(b"/data\xffDATA-V3")
    );
    assert_eq!(wide_path_bytes(&wide("aé\u{2020}")), vec![0x61, 0, 0xe9, 0, 0x20, 0x20]);
}

#[test]
fn names_carry_their_digest_process_and_nonce() {
    assert_eq!(
        private_directory_namespace_lock_name("ab"),
        ".arc-private-directory-namespace-ab.lock"
    );
    assert_eq!(
        private_directory_namespace_rebarrier_name("ab"),
        ".arc-private-directory-namespace-ab.rebarrier"
    );
    assert_eq!(
        private_directory_staging_name("ab"),
        ".arc-private-directory-create-ab.staging"
    );
    assert_eq!(
        staging_name("shutdown-clean-ack", 41, &[0x0a, 0xff], "tmp"),
        ".shutdown-clean-ack.41.0aff.tmp"
    );
    assert_ne!(
        staging_name("key", 41, &[1; 32], "tmp"),
        staging_name("key", 41, &[2; 32], "tmp")
    );
}

#[test]
fn windows_directory_namespace_guard_restores_staged_only_directory() {
    let decide = restore_private_directory_namespace_rebarrier;
    assert_eq!(
        decide(NameStatus::Absent, NameStatus::Directory),
        Ok(RestoreAction::MoveBack)
    );
    assert_eq!(
        decide(NameStatus::Directory, NameStatus::Absent),
        Ok(RestoreAction::Settled)
    );
    assert_eq!(decide(NameStatus::Absent, NameStatus::Absent), Ok(RestoreAction::Settled));
    assert_eq!(
        decide(NameStatus::Directory, NameStatus::Directory),
        Err(SecretFault::SplitNamespace)
    );
    assert_eq!(
        decide(NameStatus::Directory, NameStatus::Other),
        Err(SecretFault::LinkedNamespace)
    );
    assert_eq!(
        decide(NameStatus::Other, NameStatus::Absent),
        Err(SecretFault::LinkedDirectory)
    );
    assert_eq!(
        decide(NameStatus::Absent, NameStatus::Other),
        Err(SecretFault::LinkedRebarrier)
    );
    assert_eq!(
        decide(NameStatus::Unreadable, NameStatus::Directory),
        Ok(RestoreAction::ReportLive)
    );
    assert_eq!(
        decide(NameStatus::Directory, NameStatus::Unreadable),
        Ok(RestoreAction::ReportStaged)
    );
    assert_eq!(SecretFault::SplitNamespace.kind(), FaultKind::InvalidData);
}

#[test]
fn parents_must_be_real_and_shared() {
    assert_eq!(validate_private_directory_parent(NameStatus::Directory), Ok(()));
    assert_eq!(
        validate_private_directory_parent(NameStatus::Other),
        Err(SecretFault::ParentNotDirectory)
    );
    assert_eq!(durably_publish_existing_private_no_replace(b"/a", b"/a"), Ok(()));
    assert_eq!(durably_publish_existing_private_no_replace(b"", b"."), Ok(()));
    assert_eq!(
        durably_publish_existing_private_no_replace(b"/a", b"/b"),
        Err(SecretFault::SeparateDirectories)
    );
}

// ── Shutdown receipts ──

const TOKEN: [u8; 32] = [0x5a; 32];
const FRESH: [u8; 32] = [7; 32];

fn identity() -> NodeIdentity<'static> {
    NodeIdentity {
        data_dir: b"/var/arc",
        token: &TOKEN,
        executable: b"/usr/bin/arc",
        executable_contents: b"\x7fELF",
        genesis: b"/var/arc/stable-genesis.toml",
        genesis_contents: b"[chain]\nname='receipt-test'\n",
    }
}

#[test]
fn receipts_have_the_documented_lines() {
    let expected = format!(
        "arc.desktop.shutdown-unproven.v1\nnonce={}\ndata_dir_sha256={}\ntoken_sha256={}\nexecutable_path_sha256={}\nexecutable_sha256={}\ngenesis_path_sha256={}\ngenesis_sha256={}\n",
        hex::encode(FRESH),
        sha256_hex(b"/var/arc"),
        sha256_hex(&TOKEN),
        sha256_hex(b"/usr/bin/arc"),
        sha256_hex(b"\x7fELF"),
        sha256_hex(b"/var/arc/stable-genesis.toml"),
        sha256_hex(b"[chain]\nname='receipt-test'\n"),
    );
    let payload = desktop_shutdown_receipt_payload(&FRESH, &identity()).unwrap();
    assert_eq!(payload, expected.as_bytes());
    let ack = desktop_shutdown_ack_payload(&FRESH, &identity()).unwrap();
    assert!(ack.starts_with(b"arc.desktop.shutdown-clean-ack.v1\nnonce="));
}

#[test]
fn shutdown_marker_ack_lifecycle_is_exact_and_fail_closed() {
    let id = identity();
    let first = arm_desktop_shutdown_receipt(None, None, &id, &FRESH).unwrap();
    assert!(first.arm.created_this_attempt);
    let receipt = first.payload.clone();
    assert_eq!(
        desktop_shutdown_lifecycle_state(true, false),
        DesktopShutdownLifecycleState::Armed
    );
    let inherited = arm_desktop_shutdown_receipt(Some(&receipt), None, &id, &[9; 32]).unwrap();
    assert!(!inherited.arm.created_this_attempt);
    assert_eq!(inherited.arm.nonce, first.arm.nonce);
    assert_eq!(inherited.payload, receipt);

    let nonce = first.arm.nonce;
    let ack = acknowledge_desktop_shutdown_receipt(&receipt, &nonce, &id).unwrap();
    assert_eq!(
        desktop_shutdown_lifecycle_state(true, true),
        DesktopShutdownLifecycleState::ArmedAndAcked
    );
    assert!(validate_desktop_shutdown_ack(Some(&ack), &nonce, &id).unwrap());
    assert_eq!(
        consume_desktop_shutdown_ack(&receipt, &ack, &nonce, &id),
        Ok([ShutdownFile::Ack, ShutdownFile::Receipt])
    );
    assert!(desktop_shutdown_lifecycle_state(false, false).is_clear());
}

#[test]
fn malformed_final_receipt_is_never_overwritten() {
    let refused = arm_desktop_shutdown_receipt(Some(b"torn"), None, &identity(), &FRESH);
    assert_eq!(refused.unwrap_err(), SecretFault::InvalidSchema);
}

#[test]
fn receipts_of_another_node_are_refused() {
    let receipt = desktop_shutdown_receipt_payload(&FRESH, &identity()).unwrap();
    let ack = desktop_shutdown_ack_payload(&FRESH, &identity()).unwrap();
    let other = NodeIdentity { executable_contents: b"updated", ..identity() };
    assert_eq!(
        arm_desktop_shutdown_receipt(Some(&receipt), None, &other, &FRESH).unwrap_err(),
        SecretFault::ExistingReceiptMismatch
    );
    assert_eq!(
        arm_desktop_shutdown_receipt(None, Some(&ack), &other, &FRESH).unwrap_err(),
        SecretFault::AckResidueMismatch
    );
    assert_eq!(
        validate_desktop_shutdown_receipt(Some(&receipt), &FRESH, &other),
        Err(SecretFault::ReceiptMismatch)
    );
    assert_eq!(
        load_desktop_shutdown_receipt_nonce(Some(&receipt), &other),
        Err(SecretFault::RecoveryMismatch)
    );
    assert_eq!(
        acknowledge_desktop_shutdown_receipt(&receipt, &FRESH, &other),
        Err(SecretFault::ReceiptMismatch)
    );
    assert_eq!(
        check_existing_desktop_shutdown_ack(&ack, &FRESH, &other),
        Err(SecretFault::ExistingAckMismatch)
    );
    assert_eq!(
        validate_desktop_shutdown_ack(Some(&ack), &FRESH, &other),
        Err(SecretFault::AckMismatch)
    );
    assert_eq!(
        consume_desktop_shutdown_ack(&receipt, &receipt, &FRESH, &identity()),
        Err(SecretFault::PairMismatch)
    );
    assert_eq!(
        cancel_desktop_shutdown_receipt_before_spawn(&receipt, &[8; 32], &identity()),
        Err(SecretFault::FailedSpawnMismatch)
    );
}

#[test]
fn absent_receipts_are_no_fault() {
    let id = identity();
    assert_eq!(validate_desktop_shutdown_receipt(None, &FRESH, &id), Ok(false));
    assert_eq!(validate_desktop_shutdown_ack(None, &FRESH, &id), Ok(false));
    assert_eq!(load_desktop_shutdown_receipt_nonce(None, &id), Ok(None));
    let receipt = desktop_shutdown_receipt_payload(&FRESH, &id).unwrap();
    assert_eq!(load_desktop_shutdown_receipt_nonce(Some(&receipt), &id), Ok(Some(FRESH)));
    assert_eq!(validate_desktop_shutdown_receipt(Some(&receipt), &FRESH, &id), Ok(true));
    assert_eq!(cancel_desktop_shutdown_receipt_before_spawn(&receipt, &FRESH, &id), Ok(()));
}

#[test]
fn ack_residue_is_removed_before_a_fresh_receipt() {
    let ack = desktop_shutdown_ack_payload(&[3; 32], &identity()).unwrap();
    let plan = arm_desktop_shutdown_receipt(None, Some(&ack), &identity(), &FRESH).unwrap();
    assert!(plan.remove_ack);
    assert!(plan.arm.created_this_attempt);
    assert_eq!(plan.arm.nonce, FRESH);
    assert_eq!(check_existing_desktop_shutdown_ack(&ack, &[3; 32], &identity()), Ok(()));
}

#[test]
fn nonces_are_read_from_the_second_line() {
    let hex64 = "0a".repeat(32);
    let read = |text: &str| bound_file_nonce(text.as_bytes(), "schema");
    assert_eq!(read(&format!("schema\nnonce={hex64}\nmore")), Ok([0x0a; 32]));
    assert_eq!(read(&format!("schema\r\nnonce={hex64}\r\n")), Ok([0x0a; 32]));
    assert_eq!(read(""), Err(SecretFault::InvalidSchema));
    assert_eq!(read("schemata\nnonce="), Err(SecretFault::InvalidSchema));
    assert_eq!(read("schema"), Err(SecretFault::MissingNonce));
    assert_eq!(read("schema\n"), Err(SecretFault::MissingNonce));
    assert_eq!(read("schema\nnoise=00"), Err(SecretFault::MissingNonce));
    assert_eq!(read("schema\nnonce=0g"), Err(SecretFault::NonceNotHexadecimal));
    assert_eq!(read("schema\nnonce=000"), Err(SecretFault::NonceNotHexadecimal));
    assert_eq!(read("schema\nnonce=0011"), Err(SecretFault::NonceLength));
}

#[test]
fn receipts_are_bounded_in_size() {
    assert_eq!(check_receipt_size(768), Ok(()));
    assert_eq!(check_receipt_size(769), Err(SecretFault::ReceiptTooLarge));
    let long = "s".repeat(300);
    assert_eq!(
        desktop_shutdown_bound_payload(&long, &FRESH, &identity()),
        Err(SecretFault::PayloadTooLarge)
    );
}

#[test]
fn only_a_receipt_counts_as_armed() {
    assert!(desktop_shutdown_receipt_exists(DesktopShutdownLifecycleState::Armed));
    assert!(desktop_shutdown_receipt_exists(DesktopShutdownLifecycleState::ArmedAndAcked));
    assert!(!desktop_shutdown_receipt_exists(DesktopShutdownLifecycleState::AckOnly));
    assert!(!desktop_shutdown_receipt_exists(DesktopShutdownLifecycleState::Clear));
    assert_eq!(
        desktop_shutdown_lifecycle_state(false, true),
        DesktopShutdownLifecycleState::AckOnly
    );
}
