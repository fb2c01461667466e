//! Receipts of a managed shutdown.
//!
//! A supervisor arms a receipt before it launches a node. The node acknowledges it as the last
//! step of a clean shutdown, and the supervisor consumes both once the node is gone. While a
//! receipt or an acknowledgement is there, nothing about the node may be replaced. Each binds the
//! data directory, the capability, the executable and the genesis of one node, and a nonce.

use vstd::prelude::*;

use crate::encoding;
use crate::encoding::{bytes_eq, push_bytes, push_text};
use crate::hash;
use crate::hash::{hex_decode, hex_encode};
use crate::secret_file::fault::SecretFault;
use crate::secret_file::namespace;
use crate::secret_file::namespace::{path_digest, sha256};

verus! {

/// The directory of the receipts inside a data directory.
pub const DESKTOP_SHUTDOWN_CONTROL_DIR_NAME: &'static str = ".arc-desktop-control";

/// The name of the receipt.
pub const DESKTOP_SHUTDOWN_RECEIPT_FILE_NAME: &'static str = "shutdown-unproven";

/// The name of the acknowledgement.
pub const DESKTOP_SHUTDOWN_ACK_FILE_NAME: &'static str = "shutdown-clean-ack";

/// The first line of a receipt.
pub const DESKTOP_SHUTDOWN_RECEIPT_SCHEMA: &'static str = "arc.desktop.shutdown-unproven.v1";

/// The first line of an acknowledgement.
pub const DESKTOP_SHUTDOWN_ACK_SCHEMA: &'static str = "arc.desktop.shutdown-clean-ack.v1";

/// The greatest size of a receipt or an acknowledgement.
pub const DESKTOP_SHUTDOWN_RECEIPT_MAX_BYTES: u64 = 768;

/// What a receipt binds: resolved paths by their bytes, the capability, and the contents of files.
pub struct NodeIdentity<'a> {
    pub data_dir: &'a [u8],
    pub token: &'a [u8; 32],
    pub executable: &'a [u8],
    pub executable_contents: &'a [u8],
    pub genesis: &'a [u8],
    pub genesis_contents: &'a [u8],
}

/// What a receipt binds.
pub struct IdentityView {
    pub data_dir: Seq<u8>,
    pub token: Seq<u8>,
    pub executable: Seq<u8>,
    pub executable_contents: Seq<u8>,
    pub genesis: Seq<u8>,
    pub genesis_contents: Seq<u8>,
}

impl<'a> View for NodeIdentity<'a> {
    type V = IdentityView;

    open spec fn view(&self) -> IdentityView {
        IdentityView {
            data_dir: self.data_dir@,
            token: self.token@,
            executable: self.executable@,
            executable_contents: self.executable_contents@,
            genesis: self.genesis@,
            genesis_contents: self.genesis_contents@,
        }
    }
}

// ---------------------------------------------------------------------------
// The format
// ---------------------------------------------------------------------------

/// The lines of a receipt behind its nonce.
pub open spec fn binding_lines(id: IdentityView) -> Seq<u8> {
    encoding::text_bytes("\ndata_dir_sha256="@) + encoding::text_bytes(
        namespace::digest_text(id.data_dir),
    ) + encoding::text_bytes("\ntoken_sha256="@) + encoding::text_bytes(
        namespace::digest_text(id.token),
    ) + encoding::text_bytes("\nexecutable_path_sha256="@) + encoding::text_bytes(
        namespace::digest_text(id.executable),
    ) + encoding::text_bytes("\nexecutable_sha256="@) + encoding::text_bytes(
        namespace::digest_text(id.executable_contents),
    ) + encoding::text_bytes("\ngenesis_path_sha256="@) + encoding::text_bytes(
        namespace::digest_text(id.genesis),
    ) + encoding::text_bytes("\ngenesis_sha256="@) + encoding::text_bytes(
        namespace::digest_text(id.genesis_contents),
    ) + encoding::text_bytes("\n"@)
}

/// A receipt or an acknowledgement: its schema, its nonce, and digests of what it binds.
pub open spec fn bound_text(schema: Seq<char>, nonce: Seq<u8>, id: IdentityView) -> Seq<u8> {
    encoding::text_bytes(schema) + encoding::text_bytes("\nnonce="@) + encoding::text_bytes(
        hash::hex_text(nonce),
    ) + binding_lines(id)
}

/// The position of the first line feed from position `k` on, or the end.
pub open spec fn line_feed(text: Seq<u8>, k: int) -> int
    decreases text.len() - k,
{
    if k >= text.len() {
        text.len() as int
    } else if text[k] == 10 {
        k
    } else {
        line_feed(text, k + 1)
    }
}

/// The first line of a text, without its line feed and a carriage return before that.
pub open spec fn first_line(text: Seq<u8>) -> Seq<u8> {
    let end = line_feed(text, 0);
    if 0 < end < text.len() && text[end - 1] == 13 {
        text.subrange(0, end - 1)
    } else {
        text.subrange(0, end)
    }
}

/// What follows the first line of a text.
pub open spec fn after_first_line(text: Seq<u8>) -> Seq<u8> {
    let end = line_feed(text, 0);
    if end < text.len() {
        text.subrange(end + 1, text.len() as int)
    } else {
        Seq::empty()
    }
}

/// `nonce=`
pub open spec fn nonce_mark() -> Seq<u8> {
    encoding::text_bytes("nonce="@)
}

/// The nonce on the second line of a text that begins with a schema.
pub open spec fn nonce_of(text: Seq<u8>, schema: Seq<char>) -> Result<Seq<u8>, SecretFault> {
    let rest = after_first_line(text);
    let line = first_line(rest);
    if text.len() == 0 || first_line(text) != encoding::text_bytes(schema) {
        Err(SecretFault::InvalidSchema)
    } else if rest.len() == 0 || !nonce_mark().is_prefix_of(line) {
        Err(SecretFault::MissingNonce)
    } else {
        let digits = line.subrange(nonce_mark().len() as int, line.len() as int);
        if digits.len() % 2 != 0 || !hash::all_hex_digits(digits) {
            Err(SecretFault::NonceNotHexadecimal)
        } else if hash::hex_value(digits).len() != 32 {
            Err(SecretFault::NonceLength)
        } else {
            Ok(hash::hex_value(digits))
        }
    }
}

/// ASCII text has a byte for each character.
proof fn lemma_ascii(text: Seq<char>)
    requires
        vstd::utf8::is_ascii_chars(text),
    ensures
        encoding::text_bytes(text).len() == text.len(),
        forall|i: int|
            0 <= i < text.len() ==> #[trigger] encoding::text_bytes(text)[i] == text[i] as u8,
{
    vstd::utf8::is_ascii_chars_encode_utf8(text);
}

/// The first line feed is where no byte before it is one.
proof fn lemma_line_feed(text: Seq<u8>, k: int, end: int)
    requires
        0 <= k <= end <= text.len(),
        forall|i: int| k <= i < end ==> text[i] != 10,
        end < text.len() ==> text[end] == 10,
    ensures
        line_feed(text, k) == end,
    decreases end - k,
{
    if k < end {
        lemma_line_feed(text, k + 1, end);
    }
}

/// A schema is plain where it is ASCII text on one line.
pub open spec fn plain_schema(schema: Seq<char>) -> bool {
    &&& schema.len() > 0
    &&& forall|i: int| 0 <= i < schema.len() ==> ' ' <= #[trigger] schema[i] <= '~'
}

/// Reading the nonce of a receipt gives the nonce that it was written with.
pub proof fn law_nonce_roundtrip(schema: Seq<char>, nonce: Seq<u8>, id: IdentityView)
    requires
        plain_schema(schema),
        nonce.len() == 32,
    ensures
        nonce_of(bound_text(schema, nonce, id), schema) == Ok::<Seq<u8>, SecretFault>(nonce),
{
    let s = encoding::text_bytes(schema);
    let digits = encoding::text_bytes(hash::hex_text(nonce));
    let tail = binding_lines(id);
    let text = bound_text(schema, nonce, id);
    lemma_ascii(schema);
    hash::law_hex_roundtrip(nonce);
    reveal_strlit("\nnonce=");
    reveal_strlit("nonce=");
    reveal_strlit("\ndata_dir_sha256=");
    lemma_ascii("\nnonce="@);
    lemma_ascii("nonce="@);
    lemma_ascii("\ndata_dir_sha256="@);
    let mark = encoding::text_bytes("\nnonce="@);
    assert(mark =~= seq![10u8] + nonce_mark());
    assert(tail[0] == 10) by {
        assert(tail[0] == encoding::text_bytes("\ndata_dir_sha256="@)[0]);
    }
    assert(text[s.len() as int] == 10) by {
        assert(text[s.len() as int] == mark[0]);
    }
    assert forall|i: int| 0 <= i < s.len() implies text[i] != 10 && text[i] != 13 by {
        assert(text[i] == s[i]);
        assert(s[i] == schema[i] as u8);
    }
    lemma_line_feed(text, 0, s.len() as int);
    assert(first_line(text) =~= s);
    let rest = after_first_line(text);
    assert(rest =~= nonce_mark() + digits + tail);
    let end = nonce_mark().len() + digits.len();
    assert(rest[end as int] == 10) by {
        assert(rest[end as int] == tail[0]);
    }
    assert forall|i: int| 0 <= i < end implies rest[i] != 10 && rest[i] != 13 by {
        if i < nonce_mark().len() {
            assert(rest[i] == nonce_mark()[i]);
            assert(nonce_mark()[i] == "nonce="@[i] as u8);
        } else {
            let j = i - nonce_mark().len();
            assert(rest[i] == digits[j]);
            assert(hash::hex_digit_value(digits[j]) is Some);
        }
    }
    lemma_line_feed(rest, 0, end as int);
    let line = first_line(rest);
    assert(line =~= nonce_mark() + digits);
    assert(line.subrange(0, nonce_mark().len() as int) =~= nonce_mark());
    assert(line.subrange(nonce_mark().len() as int, line.len() as int) =~= digits);
}

/// Both schemas are plain.
proof fn lemma_schemas_plain()
    ensures
        plain_schema(DESKTOP_SHUTDOWN_RECEIPT_SCHEMA@),
        plain_schema(DESKTOP_SHUTDOWN_ACK_SCHEMA@),
        DESKTOP_SHUTDOWN_RECEIPT_SCHEMA@.len() == 32,
        DESKTOP_SHUTDOWN_ACK_SCHEMA@.len() == 33,
{
    reveal_strlit("arc.desktop.shutdown-unproven.v1");
    reveal_strlit("arc.desktop.shutdown-clean-ack.v1");
}

/// Appends a label and a digest.
fn push_digest(out: &mut Vec<u8>, label: &str, data: &[u8])
    ensures
        final(out)@ == old(out)@ + encoding::text_bytes(label@) + encoding::text_bytes(
            namespace::digest_text(data@),
        ),
        encoding::text_bytes(namespace::digest_text(data@)).len() == 64,
{
    push_text(out, label);
    let digest: [u8; 32] = sha256(data);
    let text: String = hex_encode(&digest);
    push_text(out, text.as_str());
    proof {
        hash::law_hex_roundtrip(digest@);
    }
}

/// Writes a receipt or an acknowledgement. It is refused where it grows too large, which it never
/// does under a schema of 200 bytes or less.
pub fn desktop_shutdown_bound_payload(schema: &str, nonce: &[u8; 32], id: &NodeIdentity) -> (r:
    Result<Vec<u8>, SecretFault>)
    ensures
        match r {
            Ok(out) => out@ == bound_text(schema@, nonce@, id@) && out@.len()
                <= DESKTOP_SHUTDOWN_RECEIPT_MAX_BYTES,
            Err(fault) => fault == SecretFault::PayloadTooLarge && bound_text(
                schema@,
                nonce@,
                id@,
            ).len() > DESKTOP_SHUTDOWN_RECEIPT_MAX_BYTES,
        },
        encoding::text_bytes(schema@).len() <= 200 ==> r is Ok,
{
    let mut out: Vec<u8> = Vec::new();
    push_text(&mut out, schema);
    push_text(&mut out, "\nnonce=");
    let hex: String = hex_encode(nonce);
    push_text(&mut out, hex.as_str());
    push_digest(&mut out, "\ndata_dir_sha256=", id.data_dir);
    push_digest(&mut out, "\ntoken_sha256=", id.token);
    push_digest(&mut out, "\nexecutable_path_sha256=", id.executable);
    push_digest(&mut out, "\nexecutable_sha256=", id.executable_contents);
    push_digest(&mut out, "\ngenesis_path_sha256=", id.genesis);
    push_digest(&mut out, "\ngenesis_sha256=", id.genesis_contents);
    push_text(&mut out, "\n");
    assert(out@ =~= bound_text(schema@, nonce@, id@));
    proof {
        hash::law_hex_roundtrip(nonce@);
        reveal_strlit("\nnonce=");
        reveal_strlit("\ndata_dir_sha256=");
        reveal_strlit("\ntoken_sha256=");
        reveal_strlit("\nexecutable_path_sha256=");
        reveal_strlit("\nexecutable_sha256=");
        reveal_strlit("\ngenesis_path_sha256=");
        reveal_strlit("\ngenesis_sha256=");
        reveal_strlit("\n");
        lemma_ascii("\nnonce="@);
        lemma_ascii("\ndata_dir_sha256="@);
        lemma_ascii("\ntoken_sha256="@);
        lemma_ascii("\nexecutable_path_sha256="@);
        lemma_ascii("\nexecutable_sha256="@);
        lemma_ascii("\ngenesis_path_sha256="@);
        lemma_ascii("\ngenesis_sha256="@);
        lemma_ascii("\n"@);
    }
    if out.len() as u64 > DESKTOP_SHUTDOWN_RECEIPT_MAX_BYTES {
        return Err(SecretFault::PayloadTooLarge);
    }
    Ok(out)
}

/// The receipt of a node under a nonce.
pub open spec fn receipt_text(nonce: Seq<u8>, id: IdentityView) -> Seq<u8> {
    bound_text(DESKTOP_SHUTDOWN_RECEIPT_SCHEMA@, nonce, id)
}

/// The acknowledgement of a node under a nonce.
pub open spec fn ack_text(nonce: Seq<u8>, id: IdentityView) -> Seq<u8> {
    bound_text(DESKTOP_SHUTDOWN_ACK_SCHEMA@, nonce, id)
}

/// Writes the receipt of a node.
pub fn desktop_shutdown_receipt_payload(nonce: &[u8; 32], id: &NodeIdentity) -> (r: Result<
    Vec<u8>,
    SecretFault,
>)
    ensures
        r is Ok,
        r->Ok_0@ == receipt_text(nonce@, id@),
        r->Ok_0@.len() <= DESKTOP_SHUTDOWN_RECEIPT_MAX_BYTES,
{
    proof {
        lemma_schemas_plain();
        lemma_ascii(DESKTOP_SHUTDOWN_RECEIPT_SCHEMA@);
    }
    desktop_shutdown_bound_payload(DESKTOP_SHUTDOWN_RECEIPT_SCHEMA, nonce, id)
}

/// Writes the acknowledgement of a node.
pub fn desktop_shutdown_ack_payload(nonce: &[u8; 32], id: &NodeIdentity) -> (r: Result<
    Vec<u8>,
    SecretFault,
>)
    ensures
        r is Ok,
        r->Ok_0@ == ack_text(nonce@, id@),
        r->Ok_0@.len() <= DESKTOP_SHUTDOWN_RECEIPT_MAX_BYTES,
{
    proof {
        lemma_schemas_plain();
        lemma_ascii(DESKTOP_SHUTDOWN_ACK_SCHEMA@);
    }
    desktop_shutdown_bound_payload(DESKTOP_SHUTDOWN_ACK_SCHEMA, nonce, id)
}

/// Finds the first line feed from position `k` on, or the end.
fn find_line_feed(text: &[u8], k: usize) -> (end: usize)
    requires
        k <= text.len(),
    ensures
        end == line_feed(text@, k as int),
        k <= end <= text.len(),
{
    let mut i: usize = k;
    while i < text.len() && text[i] != 10
        invariant
            k <= i <= text.len(),
            line_feed(text@, k as int) == line_feed(text@, i as int),
        decreases text.len() - i,
    {
        i = i + 1;
    }
    i
}

/// The end of the first line, given the position of its line feed.
fn line_end(text: &[u8], end: usize) -> (stop: usize)
    requires
        end == line_feed(text@, 0),
        end <= text.len(),
    ensures
        stop <= end,
        first_line(text@) == text@.subrange(0, stop as int),
{
    if 0 < end && end < text.len() && text[end - 1] == 13 {
        end - 1
    } else {
        end
    }
}

/// Reads the nonce of a text that begins with a schema.
pub fn bound_file_nonce(text: &[u8], schema: &str) -> (r: Result<[u8; 32], SecretFault>)
    ensures
        match r {
            Ok(nonce) => nonce_of(text@, schema@) == Ok::<Seq<u8>, SecretFault>(nonce@),
            Err(fault) => nonce_of(text@, schema@) == Err::<Seq<u8>, SecretFault>(fault),
        },
{
    let end: usize = find_line_feed(text, 0);
    let stop: usize = line_end(text, end);
    let head: &[u8] = vstd::slice::slice_subrange(text, 0, stop);
    if text.len() == 0 || !bytes_eq(head, schema.as_bytes()) {
        return Err(SecretFault::InvalidSchema);
    }
    if end >= text.len() {
        assert(after_first_line(text@).len() == 0);
        return Err(SecretFault::MissingNonce);
    }
    let rest: &[u8] = vstd::slice::slice_subrange(text, end + 1, text.len());
    assert(rest@ == after_first_line(text@));
    let rest_end: usize = find_line_feed(rest, 0);
    let rest_stop: usize = line_end(rest, rest_end);
    let line: &[u8] = vstd::slice::slice_subrange(rest, 0, rest_stop);
    assert(line@ == first_line(rest@));
    proof {
        reveal_strlit("nonce=");
        lemma_ascii("nonce="@);
    }
    if rest.len() == 0 || line.len() < 6 {
        return Err(SecretFault::MissingNonce);
    }
    let mark: &[u8] = vstd::slice::slice_subrange(line, 0, 6);
    assert(mark@ == line@.subrange(0, nonce_mark().len() as int));
    if !bytes_eq(mark, "nonce=".as_bytes()) {
        return Err(SecretFault::MissingNonce);
    }
    let digits: &[u8] = vstd::slice::slice_subrange(line, 6, line.len());
    match hex_decode(digits) {
        Ok(decoded) => {
            if decoded.len() != 32 {
                return Err(SecretFault::NonceLength);
            }
            let nonce: [u8; 32] = encoding::first_32(decoded.as_slice());
            assert(nonce@ =~= decoded@);
            Ok(nonce)
        },
        Err(_) => Err(SecretFault::NonceNotHexadecimal),
    }
}

/// Checks the size of a receipt that is being read.
pub fn check_receipt_size(len: u64) -> (r: Result<(), SecretFault>)
    ensures
        r == (if len > DESKTOP_SHUTDOWN_RECEIPT_MAX_BYTES {
            Err::<(), SecretFault>(SecretFault::ReceiptTooLarge)
        } else {
            Ok(())
        }),
{
    if len > DESKTOP_SHUTDOWN_RECEIPT_MAX_BYTES {
        Err(SecretFault::ReceiptTooLarge)
    } else {
        Ok(())
    }
}

// ---------------------------------------------------------------------------
// The lifecycle
// ---------------------------------------------------------------------------

/// The receipt that stands armed, and whether this attempt created it.
#[derive(Clone, Copy, Debug, PartialEq, Eq)]
pub struct DesktopShutdownReceiptArm {
    pub nonce: [u8; 32],
    pub created_this_attempt: bool,
}

/// What arming a receipt takes: an acknowledgement left over is removed first where there is one;
/// then the receipt is published at its absent name where it is new, and written anew with the same
/// contents, for the sake of its durability, where it is there.
#[derive(Clone, Debug)]
pub struct ArmPlan {
    pub arm: DesktopShutdownReceiptArm,
    pub remove_ack: bool,
    pub payload: Vec<u8>,
}

/// What arming a receipt takes.
pub struct ArmPlanView {
    pub nonce: Seq<u8>,
    pub created: bool,
    pub remove_ack: bool,
    pub payload: Seq<u8>,
}

impl View for ArmPlan {
    type V = ArmPlanView;

    open spec fn view(&self) -> ArmPlanView {
        ArmPlanView {
            nonce: self.arm.nonce@,
            created: self.arm.created_this_attempt,
            remove_ack: self.remove_ack,
            payload: self.payload@,
        }
    }
}

/// The nonce of a text that is bound to a node under a schema; `mismatch` where it is bound to
/// something else.
pub open spec fn bound_nonce(
    text: Seq<u8>,
    schema: Seq<char>,
    id: IdentityView,
    mismatch: SecretFault,
) -> Result<Seq<u8>, SecretFault> {
    match nonce_of(text, schema) {
        Err(fault) => Err(fault),
        Ok(nonce) => if text == bound_text(schema, nonce, id) {
            Ok(nonce)
        } else {
            Err(mismatch)
        },
    }
}

/// Reads the nonce of a text that is bound to a node under a schema.
fn read_bound_nonce(
    text: &[u8],
    schema: &str,
    id: &NodeIdentity,
    mismatch: SecretFault,
) -> (r: Result<[u8; 32], SecretFault>)
    requires
        encoding::text_bytes(schema@).len() <= 200,
    ensures
        match r {
            Ok(nonce) => bound_nonce(text@, schema@, id@, mismatch) == Ok::<Seq<u8>, SecretFault>(
                nonce@,
            ),
            Err(fault) => bound_nonce(text@, schema@, id@, mismatch) == Err::<
                Seq<u8>,
                SecretFault,
            >(fault),
        },
{
    let nonce: [u8; 32] = match bound_file_nonce(text, schema) {
        Ok(nonce) => nonce,
        Err(fault) => {
            return Err(fault);
        },
    };
    let expected: Vec<u8> = match desktop_shutdown_bound_payload(schema, &nonce, id) {
        Ok(expected) => expected,
        Err(fault) => {
            return Err(fault);
        },
    };
    if !bytes_eq(text, expected.as_slice()) {
        return Err(mismatch);
    }
    Ok(nonce)
}

/// What arming takes where a receipt and an acknowledgement may be there.
pub open spec fn arm_plan(
    receipt: Option<Seq<u8>>,
    ack: Option<Seq<u8>>,
    id: IdentityView,
    fresh: Seq<u8>,
) -> Result<ArmPlanView, SecretFault> {
    match receipt {
        Some(text) => match bound_nonce(
            text,
            DESKTOP_SHUTDOWN_RECEIPT_SCHEMA@,
            id,
            SecretFault::ExistingReceiptMismatch,
        ) {
            Err(fault) => Err(fault),
            Ok(nonce) => Ok(
                ArmPlanView { nonce, created: false, remove_ack: false, payload: text },
            ),
        },
        None => {
            let plan = ArmPlanView {
                nonce: fresh,
                created: true,
                remove_ack: ack is Some,
                payload: receipt_text(fresh, id),
            };
            match ack {
                None => Ok(plan),
                Some(text) => match bound_nonce(
                    text,
                    DESKTOP_SHUTDOWN_ACK_SCHEMA@,
                    id,
                    SecretFault::AckResidueMismatch,
                ) {
                    Err(fault) => Err(fault),
                    Ok(_) => Ok(plan),
                },
            }
        },
    }
}

/// Decides how a receipt is armed, given the receipt and the acknowledgement that are there and a
/// fresh nonce. A receipt that is there is kept where it binds this very node and refused
/// otherwise.
pub fn arm_desktop_shutdown_receipt(
    receipt: Option<&[u8]>,
    ack: Option<&[u8]>,
    id: &NodeIdentity,
    fresh: &[u8; 32],
) -> (r: Result<ArmPlan, SecretFault>)
    ensures
        ({
            let receipt_view = match receipt {
                Some(text) => Some(text@),
                None => None,
            };
            let ack_view = match ack {
                Some(text) => Some(text@),
                None => None,
            };
            match r {
                Ok(plan) => arm_plan(receipt_view, ack_view, id@, fresh@) == Ok::<
                    ArmPlanView,
                    SecretFault,
                >(plan@),
                Err(fault) => arm_plan(receipt_view, ack_view, id@, fresh@) == Err::<
                    ArmPlanView,
                    SecretFault,
                >(fault),
            }
        }),
{
    proof {
        lemma_schemas_plain();
        lemma_ascii(DESKTOP_SHUTDOWN_RECEIPT_SCHEMA@);
        lemma_ascii(DESKTOP_SHUTDOWN_ACK_SCHEMA@);
    }
    if let Some(text) = receipt {
        return match read_bound_nonce(
            text,
            DESKTOP_SHUTDOWN_RECEIPT_SCHEMA,
            id,
            SecretFault::ExistingReceiptMismatch,
        ) {
            Ok(nonce) => {
                let mut payload: Vec<u8> = Vec::new();
                push_bytes(&mut payload, text);
                assert(payload@ =~= text@);
                Ok(
                    ArmPlan {
                        arm: DesktopShutdownReceiptArm { nonce, created_this_attempt: false },
                        remove_ack: false,
                        payload,
                    },
                )
            },
            Err(fault) => Err(fault),
        };
    }
    if let Some(text) = ack {
        if let Err(fault) = read_bound_nonce(
            text,
            DESKTOP_SHUTDOWN_ACK_SCHEMA,
            id,
            SecretFault::AckResidueMismatch,
        ) {
            return Err(fault);
        }
    }
    match desktop_shutdown_receipt_payload(fresh, id) {
        Ok(payload) => Ok(
            ArmPlan {
                arm: DesktopShutdownReceiptArm { nonce: *fresh, created_this_attempt: true },
                remove_ack: ack.is_some(),
                payload,
            },
        ),
        Err(fault) => Err(fault),
    }
}

/// Checks that the receipt that is there, if any, binds a node under a nonce.
pub fn validate_desktop_shutdown_receipt(
    receipt: Option<&[u8]>,
    nonce: &[u8; 32],
    id: &NodeIdentity,
) -> (r: Result<bool, SecretFault>)
    ensures
        r == (match receipt {
            None => Ok::<bool, SecretFault>(false),
            Some(text) => if text@ == receipt_text(nonce@, id@) {
                Ok(true)
            } else {
                Err(SecretFault::ReceiptMismatch)
            },
        }),
{
    let expected: Vec<u8> = match desktop_shutdown_receipt_payload(nonce, id) {
        Ok(expected) => expected,
        Err(fault) => {
            return Err(fault);
        },
    };
    match receipt {
        None => Ok(false),
        Some(text) => if bytes_eq(text, expected.as_slice()) {
            Ok(true)
        } else {
            Err(SecretFault::ReceiptMismatch)
        },
    }
}

/// Reads the nonce of an inherited receipt, if there is one.
pub fn load_desktop_shutdown_receipt_nonce(receipt: Option<&[u8]>, id: &NodeIdentity) -> (r: Result<
    Option<[u8; 32]>,
    SecretFault,
>)
    ensures
        match receipt {
            None => r == Ok::<Option<[u8; 32]>, SecretFault>(None),
            Some(text) => {
                let want = bound_nonce(
                    text@,
                    DESKTOP_SHUTDOWN_RECEIPT_SCHEMA@,
                    id@,
                    SecretFault::RecoveryMismatch,
                );
                match r {
                    Ok(nonce) => nonce is Some && want == Ok::<Seq<u8>, SecretFault>(
                        nonce->Some_0@,
                    ),
                    Err(fault) => want == Err::<Seq<u8>, SecretFault>(fault),
                }
            },
        },
{
    proof {
        lemma_schemas_plain();
        lemma_ascii(DESKTOP_SHUTDOWN_RECEIPT_SCHEMA@);
    }
    match receipt {
        None => Ok(None),
        Some(text) => match read_bound_nonce(
            text,
            DESKTOP_SHUTDOWN_RECEIPT_SCHEMA,
            id,
            SecretFault::RecoveryMismatch,
        ) {
            Ok(nonce) => Ok(Some(nonce)),
            Err(fault) => Err(fault),
        },
    }
}

/// Checks the armed receipt and returns the acknowledgement to publish beside it.
pub fn acknowledge_desktop_shutdown_receipt(
    receipt: &[u8],
    nonce: &[u8; 32],
    id: &NodeIdentity,
) -> (r: Result<Vec<u8>, SecretFault>)
    ensures
        match r {
            Ok(ack) => receipt@ == receipt_text(nonce@, id@) && ack@ == ack_text(nonce@, id@),
            Err(fault) => receipt@ != receipt_text(nonce@, id@) && fault
                == SecretFault::ReceiptMismatch,
        },
{
    match validate_desktop_shutdown_receipt(Some(receipt), nonce, id) {
        Ok(_) => desktop_shutdown_ack_payload(nonce, id),
        Err(fault) => Err(fault),
    }
}

/// Checks the acknowledgement that was there before one could be published.
pub fn check_existing_desktop_shutdown_ack(
    ack: &[u8],
    nonce: &[u8; 32],
    id: &NodeIdentity,
) -> (r: Result<(), SecretFault>)
    ensures
        r == (if ack@ == ack_text(nonce@, id@) {
            Ok::<(), SecretFault>(())
        } else {
            Err(SecretFault::ExistingAckMismatch)
        }),
{
    match validate_desktop_shutdown_ack(Some(ack), nonce, id) {
        Ok(_) => Ok(()),
        Err(_) => Err(SecretFault::ExistingAckMismatch),
    }
}

/// Checks that the acknowledgement that is there, if any, binds a node under a nonce.
pub fn validate_desktop_shutdown_ack(
    ack: Option<&[u8]>,
    nonce: &[u8; 32],
    id: &NodeIdentity,
) -> (r: Result<bool, SecretFault>)
    ensures
        r == (match ack {
            None => Ok::<bool, SecretFault>(false),
            Some(text) => if text@ == ack_text(nonce@, id@) {
                Ok(true)
            } else {
                Err(SecretFault::AckMismatch)
            },
        }),
{
    let expected: Vec<u8> = match desktop_shutdown_ack_payload(nonce, id) {
        Ok(expected) => expected,
        Err(fault) => {
            return Err(fault);
        },
    };
    match ack {
        None => Ok(false),
        Some(text) => if bytes_eq(text, expected.as_slice()) {
            Ok(true)
        } else {
            Err(SecretFault::AckMismatch)
        },
    }
}

/// The two files of the lifecycle.
#[derive(Clone, Copy, Debug, PartialEq, Eq, Structural)]
pub enum ShutdownFile {
    Receipt,
    Ack,
}

/// Checks a receipt and its acknowledgement and returns the files to remove, in order: the
/// acknowledgement goes first, so that an interrupted removal leaves the receipt armed.
pub fn consume_desktop_shutdown_ack(
    receipt: &[u8],
    ack: &[u8],
    nonce: &[u8; 32],
    id: &NodeIdentity,
) -> (r: Result<[ShutdownFile; 2], SecretFault>)
    ensures
        match r {
            Ok(files) => receipt@ == receipt_text(nonce@, id@) && ack@ == ack_text(nonce@, id@)
                && files@ == seq![ShutdownFile::Ack, ShutdownFile::Receipt],
            Err(fault) => (receipt@ != receipt_text(nonce@, id@) || ack@ != ack_text(nonce@, id@))
                && fault == SecretFault::PairMismatch,
        },
{
    match (
        validate_desktop_shutdown_receipt(Some(receipt), nonce, id),
        validate_desktop_shutdown_ack(Some(ack), nonce, id),
    ) {
        (Ok(_), Ok(_)) => {
            let files: [ShutdownFile; 2] = [ShutdownFile::Ack, ShutdownFile::Receipt];
            assert(files@ =~= seq![ShutdownFile::Ack, ShutdownFile::Receipt]);
            Ok(files)
        },
        _ => Err(SecretFault::PairMismatch),
    }
}

/// Checks that a receipt is the one that was armed for a launch that failed, so that it may be
/// removed.
pub fn cancel_desktop_shutdown_receipt_before_spawn(
    receipt: &[u8],
    nonce: &[u8; 32],
    id: &NodeIdentity,
) -> (r: Result<(), SecretFault>)
    ensures
        r == (if receipt@ == receipt_text(nonce@, id@) {
            Ok::<(), SecretFault>(())
        } else {
            Err(SecretFault::FailedSpawnMismatch)
        }),
{
    match validate_desktop_shutdown_receipt(Some(receipt), nonce, id) {
        Ok(_) => Ok(()),
        Err(_) => Err(SecretFault::FailedSpawnMismatch),
    }
}

/// Which of the two files are there.
#[derive(Clone, Copy, Debug, PartialEq, Eq, Structural)]
pub enum DesktopShutdownLifecycleState {
    Clear,
    Armed,
    AckOnly,
    ArmedAndAcked,
}

impl DesktopShutdownLifecycleState {
    /// Whether neither file is there.
    pub fn is_clear(self) -> (r: bool)
        ensures
            r == (self is Clear),
    {
        self == DesktopShutdownLifecycleState::Clear
    }
}

/// The state that two files amount to.
pub open spec fn lifecycle_state(
    receipt_exists: bool,
    ack_exists: bool,
) -> DesktopShutdownLifecycleState {
    if receipt_exists && ack_exists {
        DesktopShutdownLifecycleState::ArmedAndAcked
    } else if receipt_exists {
        DesktopShutdownLifecycleState::Armed
    } else if ack_exists {
        DesktopShutdownLifecycleState::AckOnly
    } else {
        DesktopShutdownLifecycleState::Clear
    }
}

/// Tells the state by which of the two files are there.
pub fn desktop_shutdown_lifecycle_state(receipt_exists: bool, ack_exists: bool) -> (state:
    DesktopShutdownLifecycleState)
    ensures
        state == lifecycle_state(receipt_exists, ack_exists),
{
    match (receipt_exists, ack_exists) {
        (true, true) => DesktopShutdownLifecycleState::ArmedAndAcked,
        (true, false) => DesktopShutdownLifecycleState::Armed,
        (false, true) => DesktopShutdownLifecycleState::AckOnly,
        (false, false) => DesktopShutdownLifecycleState::Clear,
    }
}

/// Whether the receipt is there in a state.
pub fn desktop_shutdown_receipt_exists(state: DesktopShutdownLifecycleState) -> (r: bool)
    ensures
        r == (state is Armed || state is ArmedAndAcked),
        forall|ack_exists: bool|
            state == #[trigger] lifecycle_state(true, ack_exists) ==> r,
        forall|ack_exists: bool|
            state == #[trigger] lifecycle_state(false, ack_exists) ==> !r,
{
    match state {
        DesktopShutdownLifecycleState::Armed => true,
        DesktopShutdownLifecycleState::ArmedAndAcked => true,
        _ => false,
    }
}

/// The two files, each with its contents where it is there.
pub struct ControlView {
    pub receipt: Option<Seq<u8>>,
    pub ack: Option<Seq<u8>>,
}

/// The state of the two files.
pub open spec fn state_of(control: ControlView) -> DesktopShutdownLifecycleState {
    lifecycle_state(control.receipt is Some, control.ack is Some)
}

/// The two files once a plan has been carried out.
pub open spec fn armed(control: ControlView, plan: ArmPlanView) -> ControlView {
    ControlView {
        receipt: Some(plan.payload),
        ack: if plan.remove_ack {
            None
        } else {
            control.ack
        },
    }
}

/// The two files once one of them has been removed.
pub open spec fn without(control: ControlView, file: ShutdownFile) -> ControlView {
    match file {
        ShutdownFile::Receipt => ControlView { receipt: None, ..control },
        ShutdownFile::Ack => ControlView { ack: None, ..control },
    }
}

/// A receipt that is there is never changed: where arming succeeds beside one, it is written anew
/// with the contents that it has, and nothing else is touched.
pub proof fn law_existing_receipts_stay(control: ControlView, id: IdentityView, fresh: Seq<u8>)
    requires
        control.receipt is Some,
        arm_plan(control.receipt, control.ack, id, fresh) is Ok,
    ensures
        armed(control, arm_plan(control.receipt, control.ack, id, fresh)->Ok_0) == control,
        control.receipt->Some_0 == receipt_text(
            arm_plan(control.receipt, control.ack, id, fresh)->Ok_0.nonce,
            id,
        ),
{
}

/// Arming again yields the same nonce, creates nothing and changes nothing.
pub proof fn law_arming_is_idempotent(
    control: ControlView,
    id: IdentityView,
    fresh: Seq<u8>,
    later: Seq<u8>,
)
    requires
        fresh.len() == 32,
        arm_plan(control.receipt, control.ack, id, fresh) is Ok,
    ensures
        ({
            let first = arm_plan(control.receipt, control.ack, id, fresh)->Ok_0;
            let after = armed(control, first);
            let second = arm_plan(after.receipt, after.ack, id, later);
            &&& second is Ok
            &&& second->Ok_0.nonce == first.nonce
            &&& !second->Ok_0.created
            &&& armed(after, second->Ok_0) == after
        }),
{
    let first = arm_plan(control.receipt, control.ack, id, fresh)->Ok_0;
    if control.receipt is None {
        lemma_schemas_plain();
        law_nonce_roundtrip(DESKTOP_SHUTDOWN_RECEIPT_SCHEMA@, fresh, id);
    }
    let after = armed(control, first);
    let second = arm_plan(after.receipt, after.ack, id, later)->Ok_0;
    assert(armed(after, second).receipt == after.receipt);
}

/// The whole lifecycle: arming a clear directory leaves a receipt that validates and from which the
/// nonce is read back; acknowledging it leaves both; and consuming both, acknowledgement first,
/// passes through the armed state to a clear one.
pub proof fn law_lifecycle_closes(id: IdentityView, fresh: Seq<u8>)
    requires
        fresh.len() == 32,
    ensures
        ({
            let clear = ControlView { receipt: None, ack: None };
            let plan = arm_plan(clear.receipt, clear.ack, id, fresh);
            let one = armed(clear, plan->Ok_0);
            let two = ControlView { ack: Some(ack_text(fresh, id)), ..one };
            let three = without(two, ShutdownFile::Ack);
            let four = without(three, ShutdownFile::Receipt);
            &&& plan is Ok && plan->Ok_0.created && plan->Ok_0.nonce == fresh
            &&& state_of(one) is Armed
            &&& one.receipt == Some(receipt_text(fresh, id))
            &&& bound_nonce(
                one.receipt->Some_0,
                DESKTOP_SHUTDOWN_RECEIPT_SCHEMA@,
                id,
                SecretFault::RecoveryMismatch,
            ) == Ok::<Seq<u8>, SecretFault>(fresh)
            &&& state_of(two) is ArmedAndAcked
            &&& state_of(three) is Armed
            &&& state_of(four) is Clear
        }),
{
    lemma_schemas_plain();
    law_nonce_roundtrip(DESKTOP_SHUTDOWN_RECEIPT_SCHEMA@, fresh, id);
}

/// An acknowledgement of this node that was left without its receipt is removed, and a fresh
/// receipt is armed in its place.
pub proof fn law_ack_residue_is_cleared(id: IdentityView, old_nonce: Seq<u8>, fresh: Seq<u8>)
    requires
        old_nonce.len() == 32,
    ensures
        ({
            let residue = ControlView { receipt: None, ack: Some(ack_text(old_nonce, id)) };
            let plan = arm_plan(residue.receipt, residue.ack, id, fresh);
            &&& plan is Ok
            &&& armed(residue, plan->Ok_0) == (ControlView {
                receipt: Some(receipt_text(fresh, id)),
                ack: None,
            })
        }),
{
    lemma_schemas_plain();
    law_nonce_roundtrip(DESKTOP_SHUTDOWN_ACK_SCHEMA@, old_nonce, id);
}

// ---------------------------------------------------------------------------
// What a receipt binds
// ---------------------------------------------------------------------------

/// Whether two identities have the same digests in all six parts.
pub open spec fn same_digests(a: IdentityView, b: IdentityView) -> bool {
    &&& namespace::sha256_digest(a.data_dir) == namespace::sha256_digest(b.data_dir)
    &&& namespace::sha256_digest(a.token) == namespace::sha256_digest(b.token)
    &&& namespace::sha256_digest(a.executable) == namespace::sha256_digest(b.executable)
    &&& namespace::sha256_digest(a.executable_contents) == namespace::sha256_digest(
        b.executable_contents,
    )
    &&& namespace::sha256_digest(a.genesis) == namespace::sha256_digest(b.genesis)
    &&& namespace::sha256_digest(a.genesis_contents) == namespace::sha256_digest(b.genesis_contents)
}

/// Whether SHA-256 digests have their 32 bytes.
pub open spec fn sha256_has_32_bytes() -> bool {
    forall|x: Seq<u8>| (#[trigger] namespace::sha256_digest(x)).len() == 32
}

proof fn lemma_digest_line(label: Seq<u8>, before_a: Seq<u8>, x: Seq<u8>, before_b: Seq<u8>, y: Seq<u8>)
    requires
        sha256_has_32_bytes(),
        before_a + label + encoding::text_bytes(namespace::digest_text(x)) == before_b + label
            + encoding::text_bytes(namespace::digest_text(y)),
    ensures
        before_a == before_b,
        namespace::sha256_digest(x) == namespace::sha256_digest(y),
{
    let dx = namespace::sha256_digest(x);
    let dy = namespace::sha256_digest(y);
    hash::law_hex_roundtrip(dx);
    hash::law_hex_roundtrip(dy);
    let tx = encoding::text_bytes(namespace::digest_text(x));
    let ty = encoding::text_bytes(namespace::digest_text(y));
    assert(tx.len() == 64 && ty.len() == 64);
    assert((before_a + label + tx).len() == before_a.len() + label.len() + 64);
    assert((before_b + label + ty).len() == before_b.len() + label.len() + 64);
    encoding::lemma_split(before_a + label, tx, before_b + label, ty);
    encoding::lemma_split(before_a, label, before_b, label);
}

/// A receipt or an acknowledgement names its nonce and the whole identity: two of one schema are the
/// same only where the nonces and the digests of all six parts of the identities are.
pub proof fn law_texts_bind_nonce_and_identity(
    schema: Seq<char>,
    nonce_a: Seq<u8>,
    a: IdentityView,
    nonce_b: Seq<u8>,
    b: IdentityView,
)
    requires
        sha256_has_32_bytes(),
        nonce_a.len() == nonce_b.len(),
        bound_text(schema, nonce_a, a) == bound_text(schema, nonce_b, b),
    ensures
        nonce_a == nonce_b,
        same_digests(a, b),
{
    let s = encoding::text_bytes(schema) + encoding::text_bytes("\nnonce="@);
    let ha = encoding::text_bytes(hash::hex_text(nonce_a));
    let hb = encoding::text_bytes(hash::hex_text(nonce_b));
    hash::law_hex_roundtrip(nonce_a);
    hash::law_hex_roundtrip(nonce_b);
    encoding::lemma_split(s + ha, binding_lines(a), s + hb, binding_lines(b));
    encoding::lemma_split(s, ha, s, hb);
    let empty = Seq::<u8>::empty();
    let l0 = encoding::text_bytes("\ndata_dir_sha256="@);
    let l1 = encoding::text_bytes("\ntoken_sha256="@);
    let l2 = encoding::text_bytes("\nexecutable_path_sha256="@);
    let l3 = encoding::text_bytes("\nexecutable_sha256="@);
    let l4 = encoding::text_bytes("\ngenesis_path_sha256="@);
    let l5 = encoding::text_bytes("\ngenesis_sha256="@);
    let end = encoding::text_bytes("\n"@);
    let a0 = empty + l0 + encoding::text_bytes(namespace::digest_text(a.data_dir));
    let b0 = empty + l0 + encoding::text_bytes(namespace::digest_text(b.data_dir));
    let a1 = a0 + l1 + encoding::text_bytes(namespace::digest_text(a.token));
    let b1 = b0 + l1 + encoding::text_bytes(namespace::digest_text(b.token));
    let a2 = a1 + l2 + encoding::text_bytes(namespace::digest_text(a.executable));
    let b2 = b1 + l2 + encoding::text_bytes(namespace::digest_text(b.executable));
    let a3 = a2 + l3 + encoding::text_bytes(namespace::digest_text(a.executable_contents));
    let b3 = b2 + l3 + encoding::text_bytes(namespace::digest_text(b.executable_contents));
    let a4 = a3 + l4 + encoding::text_bytes(namespace::digest_text(a.genesis));
    let b4 = b3 + l4 + encoding::text_bytes(namespace::digest_text(b.genesis));
    let a5 = a4 + l5 + encoding::text_bytes(namespace::digest_text(a.genesis_contents));
    let b5 = b4 + l5 + encoding::text_bytes(namespace::digest_text(b.genesis_contents));
    assert(empty + l0 =~= l0);
    assert(binding_lines(a) == a5 + end);
    assert(binding_lines(b) == b5 + end);
    assert((a5 + end).len() == a5.len() + end.len());
    assert((b5 + end).len() == b5.len() + end.len());
    encoding::lemma_split(a5, end, b5, end);
    lemma_digest_line(l5, a4, a.genesis_contents, b4, b.genesis_contents);
    lemma_digest_line(l4, a3, a.genesis, b3, b.genesis);
    lemma_digest_line(l3, a2, a.executable_contents, b2, b.executable_contents);
    lemma_digest_line(l2, a1, a.executable, b1, b.executable);
    lemma_digest_line(l1, a0, a.token, b0, b.token);
    lemma_digest_line(l0, empty, a.data_dir, empty, b.data_dir);
}

/// A text is accepted for one identity alone, as far as digests tell identities apart, and it is the
/// one that was written for that nonce and identity.
pub proof fn law_accepted_texts_bind_the_identity(
    text: Seq<u8>,
    schema: Seq<char>,
    a: IdentityView,
    b: IdentityView,
    mismatch: SecretFault,
)
    requires
        sha256_has_32_bytes(),
        bound_nonce(text, schema, a, mismatch) is Ok,
        bound_nonce(text, schema, b, mismatch) is Ok,
    ensures
        same_digests(a, b),
        bound_nonce(text, schema, a, mismatch) == bound_nonce(text, schema, b, mismatch),
        text == bound_text(schema, bound_nonce(text, schema, a, mismatch)->Ok_0, a),
        bound_nonce(text, schema, a, mismatch)->Ok_0.len() == 32,
{
    let nonce = nonce_of(text, schema)->Ok_0;
    law_texts_bind_nonce_and_identity(schema, nonce, a, nonce, b);
}

/// What was written for a nonce and an identity is accepted for that identity and gives the nonce.
pub proof fn law_written_texts_are_accepted(
    schema: Seq<char>,
    nonce: Seq<u8>,
    id: IdentityView,
    mismatch: SecretFault,
)
    requires
        plain_schema(schema),
        nonce.len() == 32,
    ensures
        bound_nonce(bound_text(schema, nonce, id), schema, id, mismatch) == Ok::<
            Seq<u8>,
            SecretFault,
        >(nonce),
{
    law_nonce_roundtrip(schema, nonce, id);
}

/// The state of the control directory says of each file whether it is there.
pub proof fn law_states_tell_files_apart(control: ControlView, other: ControlView)
    ensures
        state_of(control) == state_of(other) <==> (control.receipt is Some == other.receipt is Some)
            && (control.ack is Some == other.ack is Some),
        state_of(control) is Clear <==> control.receipt is None && control.ack is None,
        state_of(control) is Armed <==> control.receipt is Some && control.ack is None,
        state_of(control) is AckOnly <==> control.receipt is None && control.ack is Some,
{
}

proof fn lemma_no_line_feed(line: Seq<u8>, rest: Seq<u8>)
    requires
        !line.contains(10),
    ensures
        line_feed(line.push(10) + rest, 0) == line.len(),
{
    let text = line.push(10) + rest;
    assert forall|i: int| 0 <= i < line.len() implies text[i] != 10 by {
        assert(text[i] == line[i]);
        assert(line.contains(line[i]));
    }
    lemma_line_feed(text, 0, line.len() as int);
}

/// A line ends at the first line feed, and a carriage return before that does not belong to it; what
/// follows is the rest.
pub proof fn law_lines_end_at_line_feeds(line: Seq<u8>, rest: Seq<u8>)
    requires
        !line.contains(10),
    ensures
        after_first_line(line.push(10) + rest) == rest,
        line.len() == 0 || line.last() != 13 ==> first_line(line.push(10) + rest) == line,
        first_line(line.push(13).push(10) + rest) == line,
        after_first_line(line.push(13).push(10) + rest) == rest,
        first_line(line) == line,
        after_first_line(line) == Seq::<u8>::empty(),
{
    lemma_no_line_feed(line, rest);
    let text = line.push(10) + rest;
    assert(after_first_line(text) =~= rest);
    if line.len() == 0 || line.last() != 13 {
        assert(first_line(text) =~= line);
    }
    let with_return = line.push(13);
    assert(!with_return.contains(10)) by {
        if with_return.contains(10) {
            let i = choose|i: int| 0 <= i < with_return.len() && with_return[i] == 10;
            assert(line.contains(line[i]));
        }
    }
    lemma_no_line_feed(with_return, rest);
    let other = with_return.push(10) + rest;
    assert(first_line(other) =~= line);
    assert(after_first_line(other) =~= rest);
    assert forall|i: int| 0 <= i < line.len() implies line[i] != 10 by {
        assert(line.contains(line[i]));
    }
    lemma_line_feed(line, 0, line.len() as int);
    assert(first_line(line) =~= line);
}

/// A text is accepted exactly where it is the text of this schema and this identity with some nonce of
/// 32 bytes.
pub proof fn law_accepted_texts(
    text: Seq<u8>,
    schema: Seq<char>,
    id: IdentityView,
    mismatch: SecretFault,
)
    requires
        plain_schema(schema),
    ensures
        bound_nonce(text, schema, id, mismatch) is Ok <==> exists|nonce: Seq<u8>|
            nonce.len() == 32 && text == #[trigger] bound_text(schema, nonce, id),
        nonce_of(text, schema) is Ok && bound_nonce(text, schema, id, mismatch) is Err
            ==> bound_nonce(text, schema, id, mismatch) == Err::<Seq<u8>, SecretFault>(mismatch),
{
    if bound_nonce(text, schema, id, mismatch) is Ok {
        let nonce = bound_nonce(text, schema, id, mismatch)->Ok_0;
        assert(nonce.len() == 32 && text == bound_text(schema, nonce, id));
    }
    if exists|nonce: Seq<u8>|
        nonce.len() == 32 && text == #[trigger] bound_text(schema, nonce, id) {
        let nonce = choose|nonce: Seq<u8>|
            nonce.len() == 32 && text == #[trigger] bound_text(schema, nonce, id);
        law_written_texts_are_accepted(schema, nonce, id, mismatch);
    }
}

/// Arming is refused exactly where a receipt is there that is not one of this identity, or, without a
/// receipt, an acknowledgement that is not one of this identity.
pub proof fn law_arming_is_refused_for_strangers(
    control: ControlView,
    id: IdentityView,
    fresh: Seq<u8>,
)
    ensures
        arm_plan(control.receipt, control.ack, id, fresh) is Ok <==> match control.receipt {
            Some(text) => exists|nonce: Seq<u8>|
                nonce.len() == 32 && text == #[trigger] receipt_text(nonce, id),
            None => control.ack matches Some(text) ==> exists|nonce: Seq<u8>|
                nonce.len() == 32 && text == #[trigger] ack_text(nonce, id),
        },
        control.receipt is None && arm_plan(control.receipt, control.ack, id, fresh) is Ok ==> {
            let plan = arm_plan(control.receipt, control.ack, id, fresh)->Ok_0;
            plan.created && plan.nonce == fresh && plan.payload == receipt_text(fresh, id)
                && plan.remove_ack == control.ack is Some
        },
{
    lemma_schemas_plain();
    match control.receipt {
        Some(text) => {
            law_accepted_texts(
                text,
                DESKTOP_SHUTDOWN_RECEIPT_SCHEMA@,
                id,
                SecretFault::ExistingReceiptMismatch,
            );
            if exists|nonce: Seq<u8>|
                nonce.len() == 32 && text == #[trigger] bound_text(
                    DESKTOP_SHUTDOWN_RECEIPT_SCHEMA@,
                    nonce,
                    id,
                ) {
                let nonce = choose|nonce: Seq<u8>|
                    nonce.len() == 32 && text == #[trigger] bound_text(
                        DESKTOP_SHUTDOWN_RECEIPT_SCHEMA@,
                        nonce,
                        id,
                    );
                assert(text == receipt_text(nonce, id));
            }
        },
        None => {
            if control.ack is Some {
                let text = control.ack->Some_0;
                law_accepted_texts(
                    text,
                    DESKTOP_SHUTDOWN_ACK_SCHEMA@,
                    id,
                    SecretFault::AckResidueMismatch,
                );
                if exists|nonce: Seq<u8>|
                    nonce.len() == 32 && text == #[trigger] bound_text(
                        DESKTOP_SHUTDOWN_ACK_SCHEMA@,
                        nonce,
                        id,
                    ) {
                    let nonce = choose|nonce: Seq<u8>|
                        nonce.len() == 32 && text == #[trigger] bound_text(
                            DESKTOP_SHUTDOWN_ACK_SCHEMA@,
                            nonce,
                            id,
                        );
                    assert(text == ack_text(nonce, id));
                }
            }
        },
    }
}

/// A text of one schema is not read as one of another, whatever its nonce and identity.
pub proof fn law_other_schemas_are_refused(
    schema: Seq<char>,
    other: Seq<char>,
    nonce: Seq<u8>,
    id: IdentityView,
)
    requires
        plain_schema(schema),
        schema != other,
    ensures
        nonce_of(bound_text(schema, nonce, id), other) == Err::<Seq<u8>, SecretFault>(
            SecretFault::InvalidSchema,
        ),
        nonce_of(Seq::empty(), other) == Err::<Seq<u8>, SecretFault>(SecretFault::InvalidSchema),
{
    let s = encoding::text_bytes(schema);
    let text = bound_text(schema, nonce, id);
    lemma_ascii(schema);
    reveal_strlit("\nnonce=");
    lemma_ascii("\nnonce="@);
    let mark = encoding::text_bytes("\nnonce="@);
    assert(text[s.len() as int] == 10) by {
        assert(text[s.len() as int] == mark[0]);
    }
    assert forall|i: int| 0 <= i < s.len() implies text[i] != 10 && text[i] != 13 by {
        assert(text[i] == s[i]);
        assert(s[i] == schema[i] as u8);
    }
    lemma_line_feed(text, 0, s.len() as int);
    assert(first_line(text) =~= s);
    encoding::law_text_bytes_injective(schema, other);
}

} // verus!
