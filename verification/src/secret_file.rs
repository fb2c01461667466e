//! Private files: what may be created, opened and trusted, and the receipts of a managed shutdown.
//!
//! The rules stand here; the file system is touched by callers, which hand over what they have
//! read and carry out what is decided.

pub mod fault;
pub mod namespace;
pub mod paths;
pub mod policy;
pub mod receipt;
pub mod tree;

pub use fault::{FaultKind, SecretFault};
pub use namespace::{
    durably_publish_existing_private_no_replace, namespace_path_digest,
    namespace_path_digest_folded, path_digest, private_directory_namespace_lock_name,
    private_directory_namespace_rebarrier_name, private_directory_staging_name,
    restore_private_directory_namespace_rebarrier, staging_name,
    validate_private_directory_parent, wide_path_bytes, NameStatus, RestoreAction,
};
pub use paths::{windows_extended_path, PathPart, PathPrefix, PrefixKind, WindowsPath};
pub use policy::{
    open_owned_nofollow_read, open_private_owned_migration, owner_matches_private_policy,
    private_security_descriptor, rule_form, secure_private_directory, validate_owner_as,
    validate_private, validate_private_directory, validate_private_security, AccessList,
    AccessRule, PrivateObject, RuleForm, UnixStatus,
};
pub use receipt::{
    acknowledge_desktop_shutdown_receipt, arm_desktop_shutdown_receipt, bound_file_nonce,
    cancel_desktop_shutdown_receipt_before_spawn, check_existing_desktop_shutdown_ack,
    check_receipt_size, consume_desktop_shutdown_ack, desktop_shutdown_ack_payload,
    desktop_shutdown_bound_payload, desktop_shutdown_lifecycle_state,
    desktop_shutdown_receipt_exists, desktop_shutdown_receipt_payload,
    load_desktop_shutdown_receipt_nonce, validate_desktop_shutdown_ack,
    validate_desktop_shutdown_receipt, ArmPlan, DesktopShutdownLifecycleState,
    DesktopShutdownReceiptArm, NodeIdentity, ShutdownFile,
    DESKTOP_SHUTDOWN_ACK_FILE_NAME, DESKTOP_SHUTDOWN_CONTROL_DIR_NAME,
    DESKTOP_SHUTDOWN_RECEIPT_FILE_NAME,
};
pub use tree::{
    create_private_directory_tree, secure_private_directory_tree, OperatorTree, TreeEvent,
    TreePart, TreeStep, TreeWalk,
};
