//! Single runs of `systemd-creds decrypt`: what one amounts to, what its failure is
//! put down to and how that is told.
//!
//! What the program prints on failure is classified, so that varlink transport
//! congestion is not reported as corrupt ciphertext.

use vstd::prelude::*;
use vstd::utf8::{decode_utf8, encode_scalar, encode_utf8, valid_utf8};

use crate::failure::{Failure, FailureKind, FailureView};
use crate::outside::{lossy_text, text_lossy};
use crate::text::{
    blank, chars_of, contains, occurs, occurs_at, only_blanks_trim_to_nothing, take_chars, trim,
    trimmed, trimming_keeps_the_text, utf8_push, white_space,
};

verus! {

/// An error with a user-facing message. Messages never hold secret material; they
/// only describe the failure.
#[derive(Debug)]
pub struct CredError(pub String);

impl View for CredError {
    type V = Seq<char>;

    open spec fn view(&self) -> Seq<char> {
        self.0@
    }
}

/// Bytes or an error, over what they say.
pub open spec fn secret_view(r: Result<Vec<u8>, CredError>) -> Result<Seq<u8>, Seq<char>> {
    match r {
        Ok(b) => Ok(b@),
        Err(e) => Err(e@),
    }
}

// ---- bounded messages ----------------------------------------------------------

/// The most bytes of foreign text that a message repeats.
pub const REDACT_MAX: usize = 200;

/// The longest prefix of `s` that takes at most `limit` bytes.
pub open spec fn prefix_within(s: Seq<char>, limit: int) -> Seq<char>
    decreases s.len(),
{
    if s.len() == 0 || encode_utf8(s).len() <= limit {
        s
    } else {
        prefix_within(s.drop_last(), limit)
    }
}

/// `s`, or, where it is over [`REDACT_MAX`] bytes, as many of its first characters
/// as fit, and an ellipsis.
pub open spec fn redacted(s: Seq<char>) -> Seq<char> {
    if encode_utf8(s).len() > REDACT_MAX {
        prefix_within(s, REDACT_MAX as int) + "\u{2026}"@
    } else {
        s
    }
}

/// A prefix takes no more bytes than the whole.
proof fn prefix_is_no_larger(s: Seq<char>, k: int)
    requires
        0 <= k <= s.len(),
    ensures
        encode_utf8(s.take(k)).len() <= encode_utf8(s).len(),
    decreases s.len() - k,
{
    if k < s.len() {
        assert(s.take(k + 1) =~= s.take(k).push(s[k]));
        utf8_push(s.take(k), s[k]);
        prefix_is_no_larger(s, k + 1);
    } else {
        assert(s.take(k) =~= s);
    }
}

/// The first character that does not fit marks the end of the longest prefix.
proof fn prefix_within_is(s: Seq<char>, k: int, limit: int)
    requires
        0 <= k < s.len(),
        encode_utf8(s.take(k)).len() <= limit,
        encode_utf8(s.take(k + 1)).len() > limit,
    ensures
        prefix_within(s, limit) == s.take(k),
    decreases s.len(),
{
    prefix_is_no_larger(s, k + 1);
    let t = s.drop_last();
    assert(t.take(k) =~= s.take(k));
    if k == t.len() {
        assert(t =~= s.take(k));
        assert(prefix_within(t, limit) == t);
    } else {
        assert(t.take(k + 1) =~= s.take(k + 1));
        prefix_within_is(t, k, limit);
    }
}

/// How many bytes a character takes.
fn utf8_width(c: char) -> (r: usize)
    ensures
        r == encode_scalar(c as u32).len(),
        1 <= r <= 4,
{
    if c <= '\u{7f}' {
        1
    } else if c <= '\u{7ff}' {
        2
    } else if c <= '\u{ffff}' {
        3
    } else {
        4
    }
}

/// Bounds a possibly secret-bearing text before it becomes part of a message:
/// overly long texts are truncated, at a whole character.
pub fn redact(s: &str) -> (r: String)
    ensures
        r@ == redacted(s@),
{
    if s.as_bytes().len() <= REDACT_MAX {
        return s.to_owned();
    }
    let cs = chars_of(s);
    let mut k: usize = 0;
    let mut size: usize = 0;
    assert(s@.take(0) =~= Seq::<char>::empty());
    assert(encode_utf8(Seq::<char>::empty()) =~= Seq::<u8>::empty());
    while k < cs.len()
        invariant
            cs@ == s@,
            k <= cs@.len(),
            size == encode_utf8(s@.take(k as int)).len(),
            size <= REDACT_MAX,
            encode_utf8(s@).len() > REDACT_MAX,
        decreases cs@.len() - k,
    {
        let width: usize = utf8_width(cs[k]);
        proof {
            assert(s@.take(k + 1) =~= s@.take(k as int).push(s@[k as int]));
            utf8_push(s@.take(k as int), s@[k as int]);
        }
        if size + width > REDACT_MAX {
            proof {
                prefix_within_is(s@, k as int, REDACT_MAX as int);
            }
            let mut t = take_chars(s, k).to_owned();
            t.append("\u{2026}");
            return t;
        }
        size = size + width;
        k = k + 1;
    }
    assert(s@.take(k as int) =~= s@);
    s.to_owned()
}

// ---- classification ------------------------------------------------------------

/// What a failed decryption is put down to.
#[derive(Clone, Copy, Debug, PartialEq, Eq, Structural)]
pub enum DecryptClass {
    Transport,
    NameMismatch,
    BadFormat,
    Crypto,
    Other,
}

/// The text of a failed varlink call.
pub open spec fn call_failed() -> Seq<char> {
    "Failed to call Decrypt() varlink call."@
}

/// `stderr` holds one of the texts of a rejected key or TPM.
pub open spec fn tells_crypto(stderr: Seq<char>) -> bool {
    ||| occurs("Decryption failed (incorrect key?)"@, stderr)
    ||| occurs("Unexpected TPM PCR state of the system."@, stderr)
    ||| occurs("dictionary lockout"@, stderr)
    ||| occurs("belongs to another TPM"@, stderr)
    ||| occurs("PCR signature required for decryption, but could not be found."@, stderr)
    ||| occurs("Couldn't find PCR signature file"@, stderr)
    ||| occurs("Failed to unseal"@, stderr)
}

/// `stderr` holds one of the texts of an unreachable credentials service.
pub open spec fn tells_transport(stderr: Seq<char>) -> bool {
    ||| occurs("Failed to connect to io.systemd.Credentials"@, stderr)
    ||| occurs(call_failed(), stderr)
}

/// The class of what `systemd-creds decrypt` printed. A text of a final failure
/// outweighs one of the transport.
pub open spec fn class_of(stderr: Seq<char>) -> DecryptClass {
    if occurs("Name in credential doesn't match expectations."@, stderr) {
        DecryptClass::NameMismatch
    } else if occurs("Bad credential format."@, stderr) {
        DecryptClass::BadFormat
    } else if tells_crypto(stderr) {
        DecryptClass::Crypto
    } else if tells_transport(stderr) {
        DecryptClass::Transport
    } else {
        DecryptClass::Other
    }
}

/// Classifies what `systemd-creds decrypt` printed.
pub fn classify_decrypt_stderr(stderr: &str) -> (r: DecryptClass)
    ensures
        r == class_of(stderr@),
{
    if contains(stderr, "Name in credential doesn't match expectations.") {
        return DecryptClass::NameMismatch;
    }
    if contains(stderr, "Bad credential format.") {
        return DecryptClass::BadFormat;
    }
    if contains(stderr, "Decryption failed (incorrect key?)") || contains(
        stderr,
        "Unexpected TPM PCR state of the system.",
    ) || contains(stderr, "dictionary lockout") || contains(stderr, "belongs to another TPM")
        || contains(stderr, "PCR signature required for decryption, but could not be found.")
        || contains(stderr, "Couldn't find PCR signature file") || contains(
        stderr,
        "Failed to unseal",
    ) {
        return DecryptClass::Crypto;
    }
    if contains(stderr, "Failed to connect to io.systemd.Credentials") || contains(
        stderr,
        "Failed to call Decrypt() varlink call.",
    ) {
        return DecryptClass::Transport;
    }
    DecryptClass::Other
}

/// How the message of a failed decryption begins.
pub open spec fn failure_head(class: DecryptClass) -> Seq<char> {
    match class {
        DecryptClass::Transport =>
            "systemd-creds decrypt failed: credentials service unavailable (varlink transport): "@,
        DecryptClass::NameMismatch =>
            "systemd-creds decrypt failed: credential name mismatch: "@,
        DecryptClass::BadFormat => "systemd-creds decrypt failed: bad credential format: "@,
        DecryptClass::Crypto =>
            "systemd-creds decrypt failed: decryption key or TPM rejected the credential: "@,
        DecryptClass::Other => "systemd-creds decrypt failed: "@,
    }
}

/// The message of a failed decryption: what it is put down to, and what was
/// printed, trimmed and bounded.
pub open spec fn failure_message(class: DecryptClass, stderr: Seq<char>) -> Seq<char> {
    failure_head(class) + redacted(trimmed(stderr))
}

/// The message of a failed decryption.
pub fn decrypt_failure_message(class: DecryptClass, stderr: &str) -> (r: String)
    ensures
        r@ == failure_message(class, stderr@),
{
    let detail = redact(trim(stderr));
    let head = match class {
        DecryptClass::Transport =>
            "systemd-creds decrypt failed: credentials service unavailable (varlink transport): ",
        DecryptClass::NameMismatch =>
            "systemd-creds decrypt failed: credential name mismatch: ",
        DecryptClass::BadFormat => "systemd-creds decrypt failed: bad credential format: ",
        DecryptClass::Crypto =>
            "systemd-creds decrypt failed: decryption key or TPM rejected the credential: ",
        DecryptClass::Other => "systemd-creds decrypt failed: ",
    };
    let mut m = head.to_owned();
    m.append(detail.as_str());
    m
}

/// What a child printed to stderr, as text.
pub fn stderr_text(stderr: &[u8]) -> (r: String)
    ensures
        r@ == lossy_text(stderr@),
        valid_utf8(stderr@) ==> r@ == decode_utf8(stderr@),
{
    text_lossy(stderr)
}

// ---- backoff -------------------------------------------------------------------

/// All attempts at one decryption, the first included.
pub const TRANSPORT_ATTEMPTS: u32 = 5;

pub const TRANSPORT_BACKOFF_BASE_MS: u64 = 25;

pub const TRANSPORT_BACKOFF_CAP_MS: u64 = 400;

/// The wait after attempt number `attempt`, without jitter: the base, doubled
/// with each attempt, up to the cap.
pub open spec fn backoff_of(attempt: nat) -> nat
    decreases attempt,
{
    if attempt == 0 {
        TRANSPORT_BACKOFF_BASE_MS as nat
    } else {
        let twice = 2 * backoff_of((attempt - 1) as nat);
        if twice > TRANSPORT_BACKOFF_CAP_MS {
            TRANSPORT_BACKOFF_CAP_MS as nat
        } else {
            twice
        }
    }
}

proof fn backoff_levels_off(attempt: nat)
    requires
        attempt >= 4,
    ensures
        backoff_of(attempt) == TRANSPORT_BACKOFF_CAP_MS,
    decreases attempt,
{
    if attempt == 4 {
        reveal_with_fuel(backoff_of, 5);
    } else {
        backoff_levels_off((attempt - 1) as nat);
    }
}

/// The wait in milliseconds after attempt number `attempt`: the backoff, and up
/// to half of it more, drawn from the process number and the clock's nanoseconds.
pub fn transport_backoff(attempt: u32, pid: u32, nanos: u32) -> (r: u64)
    ensures
        r == backoff_of(attempt as nat) + (pid as u64 ^ nanos as u64) as nat % (backoff_of(
            attempt as nat,
        ) / 2 + 1),
{
    let steps: u32 = if attempt < 4 {
        attempt
    } else {
        4
    };
    let mut base: u64 = TRANSPORT_BACKOFF_BASE_MS;
    let mut i: u32 = 0;
    while i < steps
        invariant
            i <= steps <= 4,
            base == backoff_of(i as nat),
            base <= TRANSPORT_BACKOFF_CAP_MS,
        decreases steps - i,
    {
        base = if base * 2 > TRANSPORT_BACKOFF_CAP_MS {
            TRANSPORT_BACKOFF_CAP_MS
        } else {
            base * 2
        };
        i = i + 1;
    }
    proof {
        if attempt >= 4 {
            backoff_levels_off(4);
            backoff_levels_off(attempt as nat);
        }
    }
    let mix: u64 = pid as u64 ^ nanos as u64;
    let jitter: u64 = mix % (base / 2 + 1);
    base + jitter
}

// ---- one attempt ---------------------------------------------------------------

/// The program that encrypts and decrypts.
pub const PROGRAM: &'static str = "systemd-creds";

/// The arguments of `systemd-creds` for decrypting from stdin to stdout.
pub fn decrypt_args(cred_name: &str) -> (r: Vec<String>)
    ensures
        r.deep_view() == seq!["decrypt"@, "--user"@, "--name"@, cred_name@, "-"@, "-"@],
{
    let mut v: Vec<String> = Vec::new();
    v.push("decrypt".to_owned());
    v.push("--user".to_owned());
    v.push("--name".to_owned());
    v.push(cred_name.to_owned());
    v.push("-".to_owned());
    v.push("-".to_owned());
    assert(v.deep_view() =~= seq![
        "decrypt"@,
        "--user"@,
        "--name"@,
        cred_name@,
        "-"@,
        "-"@,
    ]);
    v
}

/// Why one attempt at a decryption failed.
#[derive(Debug)]
pub enum DecryptAttemptError {
    /// The program could not be started or fed; with the message.
    Spawn(String),
    /// The program could not be waited for; with the message.
    Wait(String),
    /// The program failed; with what it printed.
    Failed(String),
}

pub enum AttemptErrorView {
    Spawn(Seq<char>),
    Wait(Seq<char>),
    Failed(Seq<char>),
}

impl View for DecryptAttemptError {
    type V = AttemptErrorView;

    open spec fn view(&self) -> AttemptErrorView {
        match *self {
            DecryptAttemptError::Spawn(m) => AttemptErrorView::Spawn(m@),
            DecryptAttemptError::Wait(m) => AttemptErrorView::Wait(m@),
            DecryptAttemptError::Failed(t) => AttemptErrorView::Failed(t@),
        }
    }
}

/// What one attempt gave, over what it says.
pub open spec fn attempt_view(r: Result<Vec<u8>, DecryptAttemptError>) -> Result<
    Seq<u8>,
    AttemptErrorView,
> {
    match r {
        Ok(b) => Ok(b@),
        Err(e) => Err(e@),
    }
}

/// A failure that says that the other end of the pipe went away.
pub open spec fn pipe_transport(kind: FailureKind) -> bool {
    ||| kind == FailureKind::BrokenPipe
    ||| kind == FailureKind::ConnectionReset
    ||| kind == FailureKind::ConnectionAborted
}

/// Whether a failure says that the other end of the pipe went away.
pub fn is_pipe_transport(err: &Failure) -> (r: bool)
    ensures
        r == pipe_transport(err.kind),
{
    err.kind == FailureKind::BrokenPipe || err.kind == FailureKind::ConnectionReset || err.kind
        == FailureKind::ConnectionAborted
}

/// Feeding the program failed because it went away.
pub open spec fn pipe_went_away(write_error: Option<FailureView>) -> bool {
    write_error matches Some(f) && pipe_transport(f.kind)
}

/// What a finished `systemd-creds decrypt` amounts to, by how feeding it went,
/// its status, and what it printed.
pub open spec fn finished_attempt(
    write_error: Option<FailureView>,
    success: bool,
    stderr: Seq<char>,
    stdout: Seq<u8>,
) -> Result<Seq<u8>, AttemptErrorView> {
    if !success {
        if trimmed(stderr).len() == 0 && pipe_went_away(write_error) {
            Err(AttemptErrorView::Failed(call_failed()))
        } else {
            Err(AttemptErrorView::Failed(stderr))
        }
    } else {
        match write_error {
            Some(f) => if pipe_transport(f.kind) {
                Err(AttemptErrorView::Failed(call_failed()))
            } else {
                Err(
                    AttemptErrorView::Spawn(
                        "failed to pipe ciphertext to systemd-creds: "@ + f.message,
                    ),
                )
            },
            None => Ok(stdout),
        }
    }
}

/// A failure that may have happened, over what it says.
pub open spec fn failure_view(f: Option<Failure>) -> Option<FailureView> {
    match f {
        Some(f) => Some(f@),
        None => None,
    }
}

/// `head` followed by `tail`.
pub(crate) fn message(head: &str, tail: &str) -> (r: String)
    ensures
        r@ == head@ + tail@,
{
    let mut m = head.to_owned();
    m.append(tail);
    m
}

/// What a finished `systemd-creds decrypt` amounts to.
pub fn attempt_outcome(
    write_error: Option<Failure>,
    success: bool,
    stderr: String,
    stdout: Vec<u8>,
) -> (r: Result<Vec<u8>, DecryptAttemptError>)
    ensures
        attempt_view(r) == finished_attempt(failure_view(write_error), success, stderr@, stdout@),
{
    let went_away = match &write_error {
        Some(f) => is_pipe_transport(f),
        None => false,
    };
    if !success {
        if chars_of(trim(stderr.as_str())).len() == 0 && went_away {
            return Err(
                DecryptAttemptError::Failed("Failed to call Decrypt() varlink call.".to_owned()),
            );
        }
        return Err(DecryptAttemptError::Failed(stderr));
    }
    match write_error {
        Some(f) => if went_away {
            Err(DecryptAttemptError::Failed("Failed to call Decrypt() varlink call.".to_owned()))
        } else {
            Err(
                DecryptAttemptError::Spawn(
                    message("failed to pipe ciphertext to systemd-creds: ", f.message.as_str()),
                ),
            )
        },
        None => Ok(stdout),
    }
}

/// One run of `systemd-creds decrypt`.
pub enum ChildRun {
    /// It could not be started.
    NotSpawned(Failure),
    /// It could not be waited for.
    NotWaited(Failure),
    /// It was fed the ciphertext and ended.
    Finished { write_error: Option<Failure>, success: bool, stderr: Vec<u8>, stdout: Vec<u8> },
}

/// What one run of `systemd-creds decrypt` amounts to.
pub open spec fn run_outcome(run: ChildRun) -> Result<Seq<u8>, AttemptErrorView> {
    match run {
        ChildRun::NotSpawned(f) => Err(
            AttemptErrorView::Spawn("failed to run systemd-creds decrypt: "@ + f.message@),
        ),
        ChildRun::NotWaited(f) => Err(
            AttemptErrorView::Wait("failed to wait on systemd-creds decrypt: "@ + f.message@),
        ),
        ChildRun::Finished { write_error, success, stderr, stdout } => finished_attempt(
            failure_view(write_error),
            success,
            lossy_text(stderr@),
            stdout@,
        ),
    }
}

/// What one attempt at a decryption gave.
pub fn decrypt_cipher_once(run: ChildRun) -> (r: Result<Vec<u8>, DecryptAttemptError>)
    ensures
        attempt_view(r) == run_outcome(run),
{
    match run {
        ChildRun::NotSpawned(f) => Err(
            DecryptAttemptError::Spawn(
                message("failed to run systemd-creds decrypt: ", f.message.as_str()),
            ),
        ),
        ChildRun::NotWaited(f) => Err(
            DecryptAttemptError::Wait(
                message("failed to wait on systemd-creds decrypt: ", f.message.as_str()),
            ),
        ),
        ChildRun::Finished { write_error, success, stderr, stdout } => attempt_outcome(
            write_error,
            success,
            stderr_text(stderr.as_slice()),
            stdout,
        ),
    }
}

// ---- laws --------------------------------------------------------------------

proof fn prefixes_fit(s: Seq<char>, limit: int)
    requires
        limit >= 0,
    ensures
        encode_utf8(prefix_within(s, limit)).len() <= limit,
        prefix_within(s, limit).is_prefix_of(s),
    decreases s.len(),
{
    if s.len() == 0 {
        assert(encode_utf8(s) =~= Seq::<u8>::empty());
    } else if encode_utf8(s).len() > limit {
        let t = s.drop_last();
        prefixes_fit(t, limit);
        assert(s.take(prefix_within(s, limit).len() as int) =~= t.take(
            prefix_within(s, limit).len() as int,
        ));
    }
}

/// A message repeats at most [`REDACT_MAX`] bytes of foreign text, and an
/// ellipsis of three bytes; what it repeats is the beginning of that text.
pub proof fn foreign_text_is_bounded(s: Seq<char>)
    ensures
        encode_utf8(redacted(s)).len() <= REDACT_MAX + 3,
        redacted(s) == s || (redacted(s).drop_last().is_prefix_of(s) && redacted(s).last()
            == '\u{2026}'),
{
    if encode_utf8(s).len() > REDACT_MAX {
        let kept = prefix_within(s, REDACT_MAX as int);
        prefixes_fit(s, REDACT_MAX as int);
        reveal_strlit("\u{2026}");
        assert(redacted(s) =~= kept.push('\u{2026}'));
        utf8_push(kept, '\u{2026}');
        assert(redacted(s).drop_last() =~= kept);
    }
}

/// The waits between attempts never shrink, and with the jitter they stay between
/// the base and one and a half times the cap.
pub proof fn waits_are_bounded(attempt: nat, draw: nat)
    ensures
        backoff_of(attempt) <= backoff_of(attempt + 1),
        TRANSPORT_BACKOFF_BASE_MS <= backoff_of(attempt) <= TRANSPORT_BACKOFF_CAP_MS,
        TRANSPORT_BACKOFF_BASE_MS <= backoff_of(attempt) + draw % (backoff_of(attempt) / 2 + 1)
            <= TRANSPORT_BACKOFF_CAP_MS + TRANSPORT_BACKOFF_CAP_MS / 2,
    decreases attempt,
{
    if attempt > 0 {
        waits_are_bounded((attempt - 1) as nat, draw);
    }
    let half = backoff_of(attempt) / 2 + 1;
    assert(draw % half < half) by (nonlinear_arith)
        requires
            half > 0,
    ;
}

/// Where the text of a final failure was printed, the failure is never put down
/// to the transport, whatever else was printed.
pub proof fn final_texts_outweigh_transport(stderr: Seq<char>)
    requires
        occurs("Name in credential doesn't match expectations."@, stderr) || occurs(
            "Bad credential format."@,
            stderr,
        ) || tells_crypto(stderr),
    ensures
        class_of(stderr) != DecryptClass::Transport,
        class_of(stderr) != DecryptClass::Other,
{
}

/// A text of at most 200 bytes is repeated whole. Of a longer one its longest
/// beginning that fits is repeated: one character more would not.
pub proof fn texts_are_cut_only_where_they_must_be(s: Seq<char>)
    ensures
        encode_utf8(s).len() <= 200 ==> redacted(s) == s,
        encode_utf8(s).len() > 200 ==> ({
            let kept = redacted(s).drop_last();
            &&& redacted(s).last() == '\u{2026}'
            &&& kept.len() < s.len()
            &&& kept == s.take(kept.len() as int)
            &&& encode_utf8(kept).len() <= 200
            &&& encode_utf8(s.take(kept.len() as int + 1)).len() > 200
        }),
{
    if encode_utf8(s).len() > 200 {
        let kept = prefix_within(s, 200);
        prefixes_fit(s, 200);
        longest_prefix(s, 200);
        reveal_strlit("\u{2026}");
        assert(redacted(s) =~= kept.push('\u{2026}'));
        assert(redacted(s).drop_last() =~= kept);
        assert(kept =~= s.take(kept.len() as int));
    }
}

proof fn longest_prefix(s: Seq<char>, limit: int)
    requires
        limit >= 0,
        encode_utf8(s).len() > limit,
    ensures
        prefix_within(s, limit).len() < s.len(),
        encode_utf8(s.take(prefix_within(s, limit).len() as int + 1)).len() > limit,
    decreases s.len(),
{
    if s.len() == 0 {
        assert(encode_utf8(s) =~= Seq::<u8>::empty());
    } else {
        let t = s.drop_last();
        if encode_utf8(t).len() > limit {
            longest_prefix(t, limit);
            let k = prefix_within(t, limit).len() as int;
            assert(t.take(k + 1) =~= s.take(k + 1));
        } else {
            assert(prefix_within(t, limit) == t);
            assert(s.take(t.len() as int + 1) =~= s);
        }
    }
}

/// The class of a failure is that of the first of these texts that was printed,
/// wherever in the output it stands: the name, the format, the key or TPM, the
/// transport; without any of them it is none of these.
pub proof fn printed_texts_decide_the_class(stderr: Seq<char>)
    ensures
        ({
            let name = occurs("Name in credential doesn't match expectations."@, stderr);
            let format = occurs("Bad credential format."@, stderr);
            let key = occurs("Decryption failed (incorrect key?)"@, stderr) || occurs(
                "Unexpected TPM PCR state of the system."@,
                stderr,
            ) || occurs("dictionary lockout"@, stderr) || occurs("belongs to another TPM"@, stderr)
                || occurs(
                "PCR signature required for decryption, but could not be found."@,
                stderr,
            ) || occurs("Couldn't find PCR signature file"@, stderr) || occurs(
                "Failed to unseal"@,
                stderr,
            );
            let transport = occurs("Failed to connect to io.systemd.Credentials"@, stderr)
                || occurs("Failed to call Decrypt() varlink call."@, stderr);
            &&& class_of(stderr) == DecryptClass::NameMismatch <==> name
            &&& class_of(stderr) == DecryptClass::BadFormat <==> !name && format
            &&& class_of(stderr) == DecryptClass::Crypto <==> !name && !format && key
            &&& class_of(stderr) == DecryptClass::Transport <==> !name && !format && !key
                && transport
            &&& class_of(stderr) == DecryptClass::Other <==> !name && !format && !key && !transport
        }),
{
}

/// The message of a failure ends with what was printed, without the white space
/// around it, whole if it takes at most 200 bytes; before that stands only what the
/// failure is put down to.
pub proof fn failure_messages_tell_what_was_printed(
    class: DecryptClass,
    a: Seq<char>,
    text: Seq<char>,
    b: Seq<char>,
)
    requires
        blank(a),
        blank(b),
        text.len() > 0 ==> !white_space(text[0]) && !white_space(text.last()),
    ensures
        failure_message(class, a + text + b) == failure_message(class, Seq::empty()) + redacted(
            text,
        ),
        encode_utf8(text).len() <= 200 ==> failure_message(class, a + text + b) == failure_message(
            class,
            Seq::empty(),
        ) + text,
{
    let none = Seq::<char>::empty();
    trimming_keeps_the_text(a, text, b);
    trimming_keeps_the_text(none, none, none);
    assert(none + none + none =~= none);
    assert(encode_utf8(none) =~= Seq::<u8>::empty());
    assert(redacted(none) == none);
    assert(failure_head(class) + none =~= failure_head(class));
    texts_are_cut_only_where_they_must_be(text);
}

/// A run of the program gives a plaintext only if it took the whole ciphertext and
/// ended well, and it is what the program wrote, byte for byte. What a failed run
/// printed is told whole.
pub proof fn outputs_pass_unchanged(
    write_error: Option<FailureView>,
    success: bool,
    stderr: Seq<char>,
    stdout: Seq<u8>,
    plain: Seq<u8>,
)
    ensures
        finished_attempt(write_error, success, stderr, stdout) == Ok::<
            Seq<u8>,
            AttemptErrorView,
        >(plain) <==> success && write_error is None && plain == stdout,
        !success && !blank(stderr) ==> finished_attempt(write_error, success, stderr, stdout)
            == Err::<Seq<u8>, AttemptErrorView>(AttemptErrorView::Failed(stderr)),
        !success && write_error is None ==> finished_attempt(write_error, success, stderr, stdout)
            == Err::<Seq<u8>, AttemptErrorView>(AttemptErrorView::Failed(stderr)),
{
    if trimmed(stderr).len() == 0 {
        only_blanks_trim_to_nothing(stderr);
    }
}

/// The same of a run as it is handed in: its bytes are those of the outcome.
pub proof fn child_outputs_pass_unchanged(run: ChildRun, plain: Seq<u8>)
    ensures
        run_outcome(run) == Ok::<Seq<u8>, AttemptErrorView>(plain) <==> match run {
            ChildRun::Finished { write_error, success, stderr, stdout } => success
                && write_error is None && stdout@ == plain,
            _ => false,
        },
{
}

/// Exactly a broken pipe and a lost connection count as a transport failure.
pub proof fn lost_pipes_are_transport(kind: FailureKind)
    ensures
        pipe_transport(kind) <==> kind == FailureKind::BrokenPipe || kind
            == FailureKind::ConnectionReset || kind == FailureKind::ConnectionAborted,
{
}

/// The wait starts at 25 milliseconds and doubles with each attempt, up to 400.
pub proof fn waits_double(attempt: nat)
    ensures
        backoff_of(0) == 25,
        backoff_of(attempt) <= 200 ==> backoff_of(attempt + 1) == 2 * backoff_of(attempt),
        backoff_of(attempt) > 200 ==> backoff_of(attempt + 1) == 400,
{
}

/// The class of a failure is told by its message: every message begins alike, and no
/// two classes have the same beginning.
pub proof fn classes_are_told_apart(a: DecryptClass, b: DecryptClass)
    ensures
        "systemd-creds decrypt failed: "@.is_prefix_of(failure_head(a)),
        failure_head(a) == failure_head(b) ==> a == b,
        a == DecryptClass::Other ==> failure_head(a) == "systemd-creds decrypt failed: "@,
        a == DecryptClass::NameMismatch ==> occurs("name mismatch"@, failure_head(a)),
        a == DecryptClass::BadFormat ==> occurs("bad credential format"@, failure_head(a)),
        a == DecryptClass::Crypto ==> occurs("key or TPM rejected"@, failure_head(a)),
        a == DecryptClass::Transport ==> occurs("service unavailable"@, failure_head(a)),
{
    reveal_strlit("systemd-creds decrypt failed: ");
    reveal_strlit(
        "systemd-creds decrypt failed: credentials service unavailable (varlink transport): ",
    );
    reveal_strlit("systemd-creds decrypt failed: credential name mismatch: ");
    reveal_strlit("systemd-creds decrypt failed: bad credential format: ");
    reveal_strlit(
        "systemd-creds decrypt failed: decryption key or TPM rejected the credential: ",
    );
    reveal_strlit("name mismatch");
    reveal_strlit("bad credential format");
    reveal_strlit("key or TPM rejected");
    reveal_strlit("service unavailable");
    let h = "systemd-creds decrypt failed: "@;
    let t = "systemd-creds decrypt failed: credentials service unavailable (varlink transport): "@;
    let n = "systemd-creds decrypt failed: credential name mismatch: "@;
    let f = "systemd-creds decrypt failed: bad credential format: "@;
    let c = "systemd-creds decrypt failed: decryption key or TPM rejected the credential: "@;
    assert(h.subrange(0, 30) =~= h);
    assert(t.subrange(0, 30) =~= h);
    assert(n.subrange(0, 30) =~= h);
    assert(f.subrange(0, 30) =~= h);
    assert(c.subrange(0, 30) =~= h);
    assert(h.len() == 30);
    assert(t[30] == 'c' && t[40] == 's');
    assert(n[30] == 'c' && n[40] == ' ');
    assert(f[30] == 'b');
    assert(c[30] == 'd');
    assert(n.subrange(41, 54) =~= "name mismatch"@);
    assert(occurs_at("name mismatch"@, n, 41));
    assert(f.subrange(30, 51) =~= "bad credential format"@);
    assert(occurs_at("bad credential format"@, f, 30));
    assert(c.subrange(41, 60) =~= "key or TPM rejected"@);
    assert(occurs_at("key or TPM rejected"@, c, 41));
    assert(t.subrange(42, 61) =~= "service unavailable"@);
    assert(occurs_at("service unavailable"@, t, 42));
}

} // verus!
