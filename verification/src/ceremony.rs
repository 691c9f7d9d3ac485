//! Setting up a token and its recovery file, and coming back from that file.

use crate::agent_keys;
use crate::crypto;
use crate::crypto::{CryptoError, Key};
use crate::primitives;
use crate::text;
use vstd::prelude::*;
use vstd::utf8::*;

verus! {

/// The least size of a recovery passphrase, in bytes.
pub const MIN_PASSPHRASE: usize = 20;

/// Whether a line that was typed is a yes: `y` or `Y`, whatever white space is
/// around it. Anything else is a no.
pub open spec fn yes(line: Seq<char>) -> bool {
    text::trimmed(line) == "y"@ || text::trimmed(line) == "Y"@
}

/// Whether a line that was typed is a yes.
pub fn said_yes(line: &str) -> (r: bool)
    ensures
        r == yes(line@),
{
    let t = text::trim(line);
    text::same(t.as_str(), "y") || text::same(t.as_str(), "Y")
}

/// Why a passphrase and its repetition will not do, if they will not.
pub open spec fn passphrase_problem(passphrase: Seq<char>, confirm: Seq<char>) -> Option<
    Seq<char>,
> {
    if passphrase != confirm {
        Some("passphrases do not match"@)
    } else if text::byte_len(passphrase) < MIN_PASSPHRASE {
        Some("passphrase too short (minimum 20 characters). use a memorable phrase."@)
    } else {
        None
    }
}

/// Finds out why a passphrase and its repetition will not do.
pub fn check_passphrase(passphrase: &str, confirm: &str) -> (r: Option<String>)
    ensures
        text::text_option(r) == passphrase_problem(passphrase@, confirm@),
{
    if !text::same(passphrase, confirm) {
        Some("passphrases do not match".to_owned())
    } else if text::size(passphrase) < MIN_PASSPHRASE {
        Some("passphrase too short (minimum 20 characters). use a memorable phrase.".to_owned())
    } else {
        None
    }
}

/// The text that a new key is tried on.
pub open spec fn trial_text() -> Seq<u8> {
    encode_utf8("cred-init-verification-test"@)
}

/// Encrypts a known text under a key, and gives the ciphertext back if it
/// decrypts to that text. It always does.
pub fn verify_chain(key: &Key) -> (r: Option<Vec<u8>>)
    ensures
        r matches Some(data) && crypto::decrypted(key@, data@) == Ok::<_, CryptoError>(
            trial_text(),
        ),
{
    let plaintext = "cred-init-verification-test";
    proof {
        reveal_strlit("cred-init-verification-test");
        assert(is_ascii_chars(plaintext@));
        is_ascii_chars_encode_utf8(plaintext@);
    }
    match crypto::encrypt(key, plaintext.as_bytes()) {
        Ok(data) => match crypto::decrypt(key, data.as_slice()) {
            Ok(p) => {
                if agent_keys::constant_time_eq(p.as_slice(), plaintext.as_bytes()) {
                    Some(data)
                } else {
                    None
                }
            },
            Err(_) => None,
        },
        Err(_) => None,
    }
}

// ---------------------------------------------------------------------------
// Setting up
// ---------------------------------------------------------------------------

/// Where the setting up of a token stands: what it waits for.
#[derive(Clone, Copy, Debug, PartialEq, Eq, Structural)]
pub enum InitStage {
    /// Whether the user wants to do away with the key that is in use.
    Overwrite,
    /// A token.
    Device,
    /// Whether the user has written the secret down.
    Written,
    /// The token to be programmed.
    Programming,
    /// The challenge of this machine.
    Challenge,
    /// The passphrase of the recovery file, twice.
    Passphrase,
    /// The recovery file to be written.
    Recovery,
    /// The key that the token now gives.
    Verify,
    /// Nothing: all is set up.
    Done,
    /// Nothing: it was broken off.
    Stopped,
}

/// What is to be done next.
pub enum InitAction {
    /// Warn that all secrets become unreadable, and ask whether to go on.
    AskOverwrite,
    /// Look for a token.
    FindDevice,
    /// Show the secret in hexadecimal, and ask whether it is written down.
    ShowSecret(String),
    /// Program the token with the secret.
    ProgramToken([u8; 20]),
    /// Read the challenge of this machine, or make one.
    ReadChallenge,
    /// Ask for the passphrase, twice.
    AskPassphrase,
    /// Write the recovery file.
    WriteRecovery(Vec<u8>),
    /// Derive the key from the token.
    DeriveKey,
    /// Say that all is set up.
    Finish,
    /// Say that nothing was done.
    Cancel(String),
    /// Give up, for a reason.
    Fail(String),
}

/// The setting up of a token.
pub struct InitRun {
    stage: InitStage,
    secret: [u8; 20],
    challenge: Vec<u8>,
}

/// The setting up of a token as contracts see it.
#[verifier::ext_equal]
pub struct InitView {
    pub stage: InitStage,
    pub secret: Seq<u8>,
    pub challenge: Seq<u8>,
}

impl View for InitRun {
    type V = InitView;

    closed spec fn view(&self) -> InitView {
        InitView { stage: self.stage, secret: self.secret@, challenge: self.challenge@ }
    }
}

/// The same, at another stage.
pub open spec fn at(v: InitView, stage: InitStage) -> InitView {
    InitView { stage, ..v }
}

/// Something that happens while a token is set up.
pub enum InitEvent {
    /// A line was typed.
    Answer(Seq<char>),
    /// A token was found, and a secret made for it.
    Found(Seq<u8>),
    /// The token was programmed.
    Programmed,
    /// The challenge was read.
    Challenge(Seq<u8>),
    /// The passphrase was typed twice.
    Passphrases(Seq<char>, Seq<char>),
    /// The recovery file was written.
    Written,
    /// The key was derived.
    Derived,
}

/// What an event does. One that is not waited for does nothing.
pub open spec fn init_next(v: InitView, e: InitEvent) -> InitView {
    match (v.stage, e) {
        (InitStage::Overwrite, InitEvent::Answer(line)) => at(
            v,
            if yes(line) {
                InitStage::Device
            } else {
                InitStage::Stopped
            },
        ),
        (InitStage::Device, InitEvent::Found(secret)) => InitView {
            secret,
            ..at(v, InitStage::Written)
        },
        (InitStage::Written, InitEvent::Answer(line)) => at(
            v,
            if yes(line) {
                InitStage::Programming
            } else {
                InitStage::Stopped
            },
        ),
        (InitStage::Programming, InitEvent::Programmed) => at(v, InitStage::Challenge),
        (InitStage::Challenge, InitEvent::Challenge(challenge)) => InitView {
            challenge,
            ..at(v, InitStage::Passphrase)
        },
        (InitStage::Passphrase, InitEvent::Passphrases(p, c)) => at(
            v,
            if passphrase_problem(p, c) is None && crypto::bundle_refusal(
                p,
                v.challenge.len(),
                20,
            ) is None {
                InitStage::Recovery
            } else {
                InitStage::Stopped
            },
        ),
        (InitStage::Recovery, InitEvent::Written) => at(v, InitStage::Verify),
        (InitStage::Verify, InitEvent::Derived) => at(v, InitStage::Done),
        _ => v,
    }
}

/// What a row of events does.
pub open spec fn init_after(v: InitView, events: Seq<InitEvent>) -> InitView
    decreases events.len(),
{
    if events.len() == 0 {
        v
    } else {
        init_next(init_after(v, events.drop_last()), events.last())
    }
}

impl InitRun {
    /// Starts. A machine that was set up before is asked about first.
    pub fn start(initialized: bool) -> (r: (InitRun, InitAction))
        ensures
            r.0@.stage == if initialized {
                InitStage::Overwrite
            } else {
                InitStage::Device
            },
            r.0@.secret == Seq::new(20, |i: int| 0u8),
            r.0@.challenge == Seq::<u8>::empty(),
            r.1 is AskOverwrite <==> initialized,
            r.1 is FindDevice <==> !initialized,
    {
        let stage = if initialized {
            InitStage::Overwrite
        } else {
            InitStage::Device
        };
        let run = InitRun { stage, secret: [0u8; 20], challenge: Vec::new() };
        assert(run@.secret =~= Seq::new(20, |i: int| 0u8));
        if initialized {
            (run, InitAction::AskOverwrite)
        } else {
            (run, InitAction::FindDevice)
        }
    }

    /// What is waited for.
    pub fn stage(&self) -> (r: InitStage)
        ensures
            r == self@.stage,
    {
        self.stage
    }

    /// Takes the answer whether to do away with the key that is in use.
    pub fn overwrite_answer(&mut self, line: &str) -> (r: InitAction)
        requires
            old(self)@.stage is Overwrite,
        ensures
            final(self)@ == init_next(old(self)@, InitEvent::Answer(line@)),
            yes(line@) ==> r is FindDevice,
            !yes(line@) ==> (r matches InitAction::Cancel(msg) && msg@ == "cancelled"@),
    {
        if said_yes(line) {
            self.stage = InitStage::Device;
            InitAction::FindDevice
        } else {
            self.stage = InitStage::Stopped;
            InitAction::Cancel("cancelled".to_owned())
        }
    }

    /// Takes a secret for the token that was found.
    pub fn device_found_with(&mut self, secret: [u8; 20]) -> (r: InitAction)
        requires
            old(self)@.stage is Device,
        ensures
            final(self)@ == init_next(old(self)@, InitEvent::Found(secret@)),
            r matches InitAction::ShowSecret(hex) && hex@ == primitives::hex_text(secret@),
    {
        self.secret = secret;
        self.stage = InitStage::Written;
        InitAction::ShowSecret(primitives::hex_encode(self.secret.as_slice()))
    }

    /// Makes a random secret for the token that was found.
    pub fn device_found(&mut self) -> (r: InitAction)
        requires
            old(self)@.stage is Device,
        ensures
            final(self)@ == init_next(old(self)@, InitEvent::Found(final(self)@.secret)),
            final(self)@.secret.len() == 20,
            r matches InitAction::ShowSecret(hex) && hex@ == primitives::hex_text(
                final(self)@.secret,
            ),
    {
        self.device_found_with(crypto::generate_hmac_secret())
    }

    /// Takes the answer whether the secret is written down. Only then the
    /// token is programmed.
    pub fn written_answer(&mut self, line: &str) -> (r: InitAction)
        requires
            old(self)@.stage is Written,
        ensures
            final(self)@ == init_next(old(self)@, InitEvent::Answer(line@)),
            yes(line@) ==> (r matches InitAction::ProgramToken(s) && s@ == old(self)@.secret),
            !yes(line@) ==> (r matches InitAction::Cancel(msg) && msg@
                == "cancelled -- secret was NOT programmed"@),
    {
        if said_yes(line) {
            self.stage = InitStage::Programming;
            InitAction::ProgramToken(self.secret)
        } else {
            self.stage = InitStage::Stopped;
            InitAction::Cancel("cancelled -- secret was NOT programmed".to_owned())
        }
    }

    /// Notes that the token was programmed.
    pub fn programmed(&mut self) -> (r: InitAction)
        requires
            old(self)@.stage is Programming,
        ensures
            final(self)@ == init_next(old(self)@, InitEvent::Programmed),
            r is ReadChallenge,
    {
        self.stage = InitStage::Challenge;
        InitAction::ReadChallenge
    }

    /// Takes the challenge of this machine.
    pub fn challenge_read(&mut self, challenge: Vec<u8>) -> (r: InitAction)
        requires
            old(self)@.stage is Challenge,
        ensures
            final(self)@ == init_next(old(self)@, InitEvent::Challenge(challenge@)),
            r is AskPassphrase,
    {
        self.challenge = challenge;
        self.stage = InitStage::Passphrase;
        InitAction::AskPassphrase
    }

    /// Takes the passphrase and its repetition. If they will do, the recovery
    /// file is made, from which the passphrase gives back the secret and the
    /// challenge.
    pub fn passphrases(&mut self, passphrase: &str, confirm: &str) -> (r: InitAction)
        requires
            old(self)@.stage is Passphrase,
        ensures
            final(self)@ == init_next(old(self)@, InitEvent::Passphrases(passphrase@, confirm@)),
            passphrase_problem(passphrase@, confirm@) matches Some(msg) ==> (
            r matches InitAction::Fail(m) && m@ == msg),
            passphrase_problem(passphrase@, confirm@) is None ==> {
                match crypto::bundle_refusal(passphrase@, old(self)@.challenge.len(), 20) {
                    Some(e) => r matches InitAction::Fail(m) && m@ == crypto::crypto_text(e),
                    None => r matches InitAction::WriteRecovery(data) && crypto::recovered_v2(
                        passphrase@,
                        data@,
                    ) == Ok::<_, CryptoError>(
                        (old(self)@.secret, Some(old(self)@.challenge)),
                    ),
                }
            },
    {
        match check_passphrase(passphrase, confirm) {
            Some(msg) => {
                self.stage = InitStage::Stopped;
                return InitAction::Fail(msg);
            },
            None => {},
        }
        match crypto::encrypt_recovery_v2(
            passphrase,
            self.secret.as_slice(),
            self.challenge.as_slice(),
        ) {
            Ok(data) => {
                self.stage = InitStage::Recovery;
                InitAction::WriteRecovery(data)
            },
            Err(e) => {
                self.stage = InitStage::Stopped;
                InitAction::Fail(e.message())
            },
        }
    }

    /// Notes that the recovery file was written.
    pub fn recovery_written(&mut self) -> (r: InitAction)
        requires
            old(self)@.stage is Recovery,
        ensures
            final(self)@ == init_next(old(self)@, InitEvent::Written),
            r is DeriveKey,
    {
        self.stage = InitStage::Verify;
        InitAction::DeriveKey
    }

    /// Takes the key that the token gives, and sees that it works.
    pub fn key_derived(&mut self, key: &Key) -> (r: InitAction)
        requires
            old(self)@.stage is Verify,
        ensures
            final(self)@ == init_next(old(self)@, InitEvent::Derived),
            r is Finish,
    {
        if verify_chain(key).is_some() {
            self.stage = InitStage::Done;
            InitAction::Finish
        } else {
            self.stage = InitStage::Stopped;
            InitAction::Fail("encryption verification failed".to_owned())
        }
    }
}

// ---------------------------------------------------------------------------
// Coming back
// ---------------------------------------------------------------------------

/// What is done with a secret that a recovery file gave.
#[derive(Clone, Copy, Debug, PartialEq, Eq, Structural)]
pub enum RecoverPlan {
    /// Program the token, and write the challenge back.
    RestoreChallenge,
    /// Program the token, and make a challenge if there is none.
    NewChallenge,
    /// Show the secret.
    ShowSecret,
}

/// What is done: a token is programmed only if it is there and the user says
/// so.
pub open spec fn plan_of(device_found: bool, answer: Seq<char>, with_challenge: bool) -> RecoverPlan {
    if !(device_found && yes(answer)) {
        RecoverPlan::ShowSecret
    } else if with_challenge {
        RecoverPlan::RestoreChallenge
    } else {
        RecoverPlan::NewChallenge
    }
}

/// What is said of a recovery file.
pub open spec fn report_of(secret: Seq<u8>, challenge: Option<Seq<u8>>) -> Seq<Seq<char>> {
    seq!["secret recovered ("@ + text::digits(secret.len()) + " bytes)"@] + match challenge {
        Some(c) => seq!["challenge file recovered ("@ + text::digits(c.len()) + " bytes)"@],
        None => seq![
            "WARNING: v1 recovery file -- no challenge included."@,
            "if your challenge file (~/.config/cred/challenge) is lost,"@,
            "you will need to re-encrypt all secrets after recovery."@,
        ],
    }
}

/// What is said at the end.
pub open spec fn closing_of(plan: RecoverPlan, secret: Seq<u8>) -> Seq<Seq<char>> {
    match plan {
        RecoverPlan::RestoreChallenge => seq!["challenge file restored."@, "ready to use."@],
        RecoverPlan::NewChallenge => seq![
            "WARNING: no challenge in recovery bundle -- generated new challenge."@,
            "existing secrets encrypted with the old challenge will be undecryptable."@,
            "ready to use."@,
        ],
        RecoverPlan::ShowSecret => seq![
            "HMAC secret (hex): "@ + primitives::hex_text(secret),
            "program a YubiKey manually:"@,
            "  ykman otp chalresp 2 --force "@ + primitives::hex_text(secret),
        ],
    }
}

/// Decides what is done with a secret that a recovery file gave.
pub fn recover_plan(device_found: bool, answer: &str, challenge: &Option<Vec<u8>>) -> (r:
    RecoverPlan)
    ensures
        r == plan_of(device_found, answer@, *challenge is Some),
{
    if !(device_found && said_yes(answer)) {
        RecoverPlan::ShowSecret
    } else if challenge.is_some() {
        RecoverPlan::RestoreChallenge
    } else {
        RecoverPlan::NewChallenge
    }
}

/// What is said of a recovery file.
pub fn recovery_report(secret: &Vec<u8>, challenge: &Option<Vec<u8>>) -> (r: Vec<String>)
    ensures
        text::texts(r@) == report_of(
            secret@,
            match *challenge {
                Some(c) => Some(c@),
                None => None,
            },
        ),
{
    let mut out: Vec<String> = Vec::new();
    out.push(
        text::concat3(
            "secret recovered (",
            text::decimal(secret.len() as u64).as_str(),
            " bytes)",
        ),
    );
    match challenge {
        Some(c) => {
            out.push(
                text::concat3(
                    "challenge file recovered (",
                    text::decimal(c.len() as u64).as_str(),
                    " bytes)",
                ),
            );
        },
        None => {
            out.push("WARNING: v1 recovery file -- no challenge included.".to_owned());
            out.push("if your challenge file (~/.config/cred/challenge) is lost,".to_owned());
            out.push("you will need to re-encrypt all secrets after recovery.".to_owned());
        },
    }
    assert(text::texts(out@) =~= report_of(
        secret@,
        match *challenge {
            Some(c) => Some(c@),
            None => None,
        },
    ));
    out
}

/// What is said at the end.
pub fn recover_closing(plan: RecoverPlan, secret: &Vec<u8>) -> (r: Vec<String>)
    requires
        2 * secret@.len() <= isize::MAX,
    ensures
        text::texts(r@) == closing_of(plan, secret@),
{
    let mut out: Vec<String> = Vec::new();
    match plan {
        RecoverPlan::RestoreChallenge => {
            out.push("challenge file restored.".to_owned());
            out.push("ready to use.".to_owned());
        },
        RecoverPlan::NewChallenge => {
            out.push(
                "WARNING: no challenge in recovery bundle -- generated new challenge.".to_owned(),
            );
            out.push(
                "existing secrets encrypted with the old challenge will be undecryptable.".to_owned(
                ),
            );
            out.push("ready to use.".to_owned());
        },
        RecoverPlan::ShowSecret => {
            let hex = primitives::hex_encode(secret.as_slice());
            let mut first = "HMAC secret (hex): ".to_owned();
            first.append(hex.as_str());
            let mut last = "  ykman otp chalresp 2 --force ".to_owned();
            last.append(hex.as_str());
            out.push(first);
            out.push("program a YubiKey manually:".to_owned());
            out.push(last);
        },
    }
    assert(text::texts(out@) =~= closing_of(plan, secret@));
    out
}

// ---------------------------------------------------------------------------
// Laws
// ---------------------------------------------------------------------------

/// The stages after the user said that the secret is written down.
pub open spec fn past_writing(stage: InitStage) -> bool {
    ||| stage is Programming
    ||| stage is Challenge
    ||| stage is Passphrase
    ||| stage is Recovery
    ||| stage is Verify
    ||| stage is Done
}

/// Whatever happens, the token is programmed only after a yes to the question
/// whether the secret, which was shown, is written down.
pub proof fn law_the_secret_is_written_down_first(v: InitView, events: Seq<InitEvent>)
    requires
        v.stage is Overwrite || v.stage is Device,
        past_writing(init_after(v, events).stage),
    ensures
        exists|i: int|
            0 <= i < events.len() && (#[trigger] events[i]) is Answer && yes(events[i]->Answer_0)
                && init_after(v, events.take(i)).stage is Written,
    decreases events.len(),
{
    let n = events.len() - 1;
    let before = events.drop_last();
    let mid = init_after(v, before);
    assert(before =~= events.take(n));
    if past_writing(mid.stage) {
        law_the_secret_is_written_down_first(v, before);
        let i = choose|i: int|
            0 <= i < before.len() && (#[trigger] before[i]) is Answer && yes(before[i]->Answer_0)
                && init_after(v, before.take(i)).stage is Written;
        assert(before.take(i) =~= events.take(i));
        assert(events[i] == before[i]);
    } else {
        assert(events[n] == events.last());
    }
}

/// Whatever happens, a machine that was set up before is set up anew only after
/// a yes to the question whether to go on.
pub proof fn law_nothing_is_overwritten_without_a_yes(v: InitView, events: Seq<InitEvent>)
    requires
        v.stage is Overwrite,
        !(init_after(v, events).stage is Overwrite),
        !(init_after(v, events).stage is Stopped),
    ensures
        exists|i: int|
            0 <= i < events.len() && (#[trigger] events[i]) is Answer && yes(events[i]->Answer_0)
                && init_after(v, events.take(i)).stage is Overwrite,
    decreases events.len(),
{
    let n = events.len() - 1;
    let before = events.drop_last();
    let mid = init_after(v, before);
    assert(before =~= events.take(n));
    if mid.stage is Overwrite {
        assert(events[n] == events.last());
    } else {
        law_nothing_is_overwritten_without_a_yes(v, before);
        let i = choose|i: int|
            0 <= i < before.len() && (#[trigger] before[i]) is Answer && yes(before[i]->Answer_0)
                && init_after(v, before.take(i)).stage is Overwrite;
        assert(before.take(i) =~= events.take(i));
        assert(events[i] == before[i]);
    }
}

/// The secret that was shown is the one that the token and the recovery file
/// get: nothing changes it any more.
pub proof fn law_the_shown_secret_stays(v: InitView, events: Seq<InitEvent>)
    requires
        v.stage is Written || past_writing(v.stage) || v.stage is Stopped,
    ensures
        init_after(v, events).secret == v.secret,
        init_after(v, events).stage is Written || past_writing(init_after(v, events).stage)
            || init_after(v, events).stage is Stopped,
    decreases events.len(),
{
    if events.len() > 0 {
        law_the_shown_secret_stays(v, events.drop_last());
    }
}

/// What was broken off stays broken off.
pub proof fn law_a_stop_is_final(v: InitView, events: Seq<InitEvent>)
    requires
        v.stage is Stopped,
    ensures
        init_after(v, events) == v,
    decreases events.len(),
{
    if events.len() > 0 {
        law_a_stop_is_final(v, events.drop_last());
    }
}

/// Without a yes no token is programmed from a recovery file, and without a
/// token none is asked for.
pub proof fn law_a_token_is_programmed_only_on_a_yes(
    device_found: bool,
    answer: Seq<char>,
    with_challenge: bool,
)
    ensures
        plan_of(device_found, answer, with_challenge) != RecoverPlan::ShowSecret <==> device_found
            && yes(answer),
{
}

/// A blank line is a no.
pub proof fn law_a_blank_line_is_a_no(line: Seq<char>)
    requires
        text::trimmed(line).len() == 0,
    ensures
        !yes(line),
{
    reveal_strlit("y");
    reveal_strlit("Y");
}

/// A passphrase will do exactly if it was repeated as it is and has 20 bytes or
/// more; that it was not repeated is told first.
pub proof fn law_which_passphrases_will_do(passphrase: Seq<char>, confirm: Seq<char>)
    ensures
        passphrase_problem(passphrase, confirm) is None <==> passphrase == confirm && text::byte_len(
            passphrase,
        ) >= 20,
        passphrase != confirm ==> passphrase_problem(passphrase, confirm) == Some(
            "passphrases do not match"@,
        ),
        passphrase == confirm && text::byte_len(passphrase) < 20 ==> text::begins(
            passphrase_problem(passphrase, confirm)->0,
            "passphrase too short"@,
        ),
{
    let t = "passphrase too short (minimum 20 characters). use a memorable phrase."@;
    assert(t.len() >= "passphrase too short"@.len() && t.take("passphrase too short"@.len() as int)
        =~= "passphrase too short"@) by {
        reveal_strlit("passphrase too short (minimum 20 characters). use a memorable phrase.");
        reveal_strlit("passphrase too short");
    }
}

/// `y` and `Y` are a yes, whatever white space is around them, and a yes is one
/// of them with white space around it.
pub proof fn law_what_a_yes_is(a: Seq<char>, b: Seq<char>, line: Seq<char>)
    requires
        forall|i: int| 0 <= i < a.len() ==> text::white(#[trigger] a[i]),
        forall|i: int| 0 <= i < b.len() ==> text::white(#[trigger] b[i]),
    ensures
        yes(a + seq!['y'] + b),
        yes(a + seq!['Y'] + b),
        yes(line) ==> exists|k: int|
            0 <= k < line.len() && (#[trigger] line[k] == 'y' || line[k] == 'Y') && forall|i: int|
                0 <= i < line.len() && i != k ==> text::white(#[trigger] line[i]),
{
    reveal_strlit("y");
    reveal_strlit("Y");
    assert("y"@ =~= seq!['y'] && "Y"@ =~= seq!['Y']);
    text::law_trimming_gives_back_the_core(a, seq!['y'], b);
    text::law_trimming_gives_back_the_core(a, seq!['Y'], b);
    let (x, y) = text::law_trimming_takes_the_white_ends(line);
    if yes(line) {
        assert(y == x + 1);
        assert(text::trimmed(line)[0] == line[x]);
        assert forall|i: int| 0 <= i < line.len() && i != x implies text::white(
            #[trigger] line[i],
        ) by {}
    }
}

/// Each stage is left for the next by the event that it waits for: a yes, a
/// token with its secret, a programmed token, a challenge, a passphrase that
/// will do, a written file, a derived key. A no, or a passphrase that will not
/// do, stops; any other event changes nothing.
pub proof fn law_the_order_of_the_setting_up(v: InitView, e: InitEvent)
    ensures
        ({
            let w = init_next(v, e);
            match v.stage {
                InitStage::Overwrite => match e {
                    InitEvent::Answer(line) => w == at(
                        v,
                        if yes(line) {
                            InitStage::Device
                        } else {
                            InitStage::Stopped
                        },
                    ),
                    _ => w == v,
                },
                InitStage::Device => match e {
                    InitEvent::Found(secret) => w.stage is Written && w.secret == secret
                        && w.challenge == v.challenge,
                    _ => w == v,
                },
                InitStage::Written => match e {
                    InitEvent::Answer(line) => w == at(
                        v,
                        if yes(line) {
                            InitStage::Programming
                        } else {
                            InitStage::Stopped
                        },
                    ),
                    _ => w == v,
                },
                InitStage::Programming => if e is Programmed {
                    w == at(v, InitStage::Challenge)
                } else {
                    w == v
                },
                InitStage::Challenge => match e {
                    InitEvent::Challenge(challenge) => w.stage is Passphrase && w.secret == v.secret
                        && w.challenge == challenge,
                    _ => w == v,
                },
                InitStage::Passphrase => match e {
                    InitEvent::Passphrases(p, c) => {
                        let fits = p == c && text::byte_len(p) >= 20 && text::byte_len(p)
                            <= u32::MAX && v.challenge.len() <= 65_535 && v.challenge.len() + 54
                            <= isize::MAX;
                        w == at(
                            v,
                            if fits {
                                InitStage::Recovery
                            } else {
                                InitStage::Stopped
                            },
                        )
                    },
                    _ => w == v,
                },
                InitStage::Recovery => if e is Written {
                    w == at(v, InitStage::Verify)
                } else {
                    w == v
                },
                InitStage::Verify => if e is Derived {
                    w == at(v, InitStage::Done)
                } else {
                    w == v
                },
                InitStage::Done => w == v,
                InitStage::Stopped => w == v,
            }
        }),
{
}

/// The setting up of a new machine, when all goes well.
pub proof fn law_a_machine_can_be_set_up(
    v: InitView,
    secret: Seq<u8>,
    line: Seq<char>,
    challenge: Seq<u8>,
    passphrase: Seq<char>,
)
    requires
        v.stage is Device,
        yes(line),
        challenge.len() <= 65_535,
        20 <= text::byte_len(passphrase) <= u32::MAX,
    ensures
        ({
            let w = init_after(
                v,
                seq![
                    InitEvent::Found(secret),
                    InitEvent::Answer(line),
                    InitEvent::Programmed,
                    InitEvent::Challenge(challenge),
                    InitEvent::Passphrases(passphrase, passphrase),
                    InitEvent::Written,
                    InitEvent::Derived,
                ],
            );
            w.stage is Done && w.secret == secret && w.challenge == challenge
        }),
{
    let s1 = Seq::<InitEvent>::empty().push(InitEvent::Found(secret));
    let s2 = s1.push(InitEvent::Answer(line));
    let s3 = s2.push(InitEvent::Programmed);
    let s4 = s3.push(InitEvent::Challenge(challenge));
    let s5 = s4.push(InitEvent::Passphrases(passphrase, passphrase));
    let s6 = s5.push(InitEvent::Written);
    let s7 = s6.push(InitEvent::Derived);
    lemma_one_more(v, Seq::empty(), InitEvent::Found(secret));
    lemma_one_more(v, s1, InitEvent::Answer(line));
    lemma_one_more(v, s2, InitEvent::Programmed);
    lemma_one_more(v, s3, InitEvent::Challenge(challenge));
    lemma_one_more(v, s4, InitEvent::Passphrases(passphrase, passphrase));
    lemma_one_more(v, s5, InitEvent::Written);
    lemma_one_more(v, s6, InitEvent::Derived);
    assert(s7 =~= seq![
        InitEvent::Found(secret),
        InitEvent::Answer(line),
        InitEvent::Programmed,
        InitEvent::Challenge(challenge),
        InitEvent::Passphrases(passphrase, passphrase),
        InitEvent::Written,
        InitEvent::Derived,
    ]);
}

proof fn lemma_one_more(v: InitView, events: Seq<InitEvent>, e: InitEvent)
    ensures
        init_after(v, events.push(e)) == init_next(init_after(v, events), e),
{
    assert(events.push(e).drop_last() =~= events);
}

/// With a token and a yes the token is programmed, and the challenge restored
/// if the file has one; without them the secret is shown.
pub proof fn law_what_is_done_with_a_recovered_secret(
    device_found: bool,
    answer: Seq<char>,
    with_challenge: bool,
)
    ensures
        plan_of(device_found, answer, with_challenge) is RestoreChallenge <==> device_found && yes(
            answer,
        ) && with_challenge,
        plan_of(device_found, answer, with_challenge) is NewChallenge <==> device_found && yes(
            answer,
        ) && !with_challenge,
        plan_of(device_found, answer, with_challenge) is ShowSecret <==> !device_found || !yes(
            answer,
        ),
{
}

/// The report tells the size of the secret, and of the challenge if there is
/// one, and else warns that there is none.
pub proof fn law_the_report_tells_what_was_recovered(secret: Seq<u8>, challenge: Seq<u8>)
    ensures
        report_of(secret, Some(challenge)).len() == 2,
        text::holds(
            report_of(secret, Some(challenge))[0],
            "secret recovered ("@ + text::digits(secret.len()) + " bytes"@,
        ),
        text::holds(
            report_of(secret, Some(challenge))[1],
            "challenge file recovered ("@ + text::digits(challenge.len()) + " bytes"@,
        ),
        report_of(secret, None).len() > 1,
        report_of(secret, None)[0] == report_of(secret, Some(challenge))[0],
        text::begins(report_of(secret, None)[1], "WARNING: "@),
{
    assert(" bytes)"@ =~= " bytes"@ + ")"@) by {
        reveal_strlit(" bytes)");
        reveal_strlit(" bytes");
        reveal_strlit(")");
    }
    let none = Seq::<char>::empty();
    let a = "secret recovered ("@ + text::digits(secret.len()) + " bytes"@;
    let b = "challenge file recovered ("@ + text::digits(challenge.len()) + " bytes"@;
    assert(report_of(secret, Some(challenge))[0] =~= none + a + ")"@);
    text::law_what_a_text_holds(none, a, ")"@);
    assert(report_of(secret, Some(challenge))[1] =~= none + b + ")"@);
    text::law_what_a_text_holds(none, b, ")"@);
    let w = "WARNING: v1 recovery file -- no challenge included."@;
    assert(report_of(secret, None)[1] == w);
    assert(w.len() >= "WARNING: "@.len() && w.take("WARNING: "@.len() as int) =~= "WARNING: "@) by {
        reveal_strlit("WARNING: v1 recovery file -- no challenge included.");
        reveal_strlit("WARNING: ");
    }
}

/// At the end a programmed token is said to be ready, with a warning if the
/// challenge is new; else the secret is told, in hexadecimal, and nowhere else.
pub proof fn law_how_a_recovery_is_closed(plan: RecoverPlan, secret: Seq<u8>, other: Seq<u8>)
    ensures
        plan is ShowSecret ==> text::holds(
            closing_of(plan, secret)[0],
            primitives::hex_text(secret),
        ),
        !(plan is ShowSecret) ==> closing_of(plan, secret).last() == "ready to use."@,
        !(plan is ShowSecret) ==> closing_of(plan, secret) == closing_of(plan, other),
        plan is NewChallenge <==> text::begins(closing_of(plan, secret)[0], "WARNING: "@),
{
    let h = "HMAC secret (hex): "@;
    let none = Seq::<char>::empty();
    assert(h + primitives::hex_text(secret) =~= h + primitives::hex_text(secret) + none);
    text::law_what_a_text_holds(h, primitives::hex_text(secret), none);
    reveal_strlit("WARNING: ");
    let line = closing_of(plan, secret)[0];
    match plan {
        RecoverPlan::NewChallenge => {
            reveal_strlit("WARNING: no challenge in recovery bundle -- generated new challenge.");
            assert(line.take("WARNING: "@.len() as int) =~= "WARNING: "@);
        },
        RecoverPlan::RestoreChallenge => {
            reveal_strlit("challenge file restored.");
            assert(line[0] == 'c');
            assert(line.take("WARNING: "@.len() as int)[0] == 'c');
        },
        RecoverPlan::ShowSecret => {
            reveal_strlit("HMAC secret (hex): ");
            assert(line[0] == 'H');
            assert(line.take("WARNING: "@.len() as int)[0] == 'H');
        },
    }
}

} // verus!
