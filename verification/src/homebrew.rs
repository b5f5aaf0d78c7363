//! The Homebrew protocol between a repeater and a master server: login,
//! keepalive and reconnection.
//!
//! A repeater logs in with its ID, answers a challenge with the digest of the
//! challenge and the password, and describes itself.  From then on it pings the
//! master, which answers each ping.  Times are in nanoseconds.

use sha2::Digest;

use vstd::prelude::*;
use vstd::string::*;
use vstd::utf8::*;

use crate::bytes::be32;
use crate::dmrd::{parses_to, Dmrd, DmrdError};
use crate::types::DmrId;

verus! {

/// Login.
pub const TAG_RPTL: [u8; 4] = [0x52, 0x50, 0x54, 0x4C];

/// Answer to the challenge.
pub const TAG_RPTK: [u8; 4] = [0x52, 0x50, 0x54, 0x4B];

/// Ping.
pub const TAG_RPTPING: [u8; 7] = [0x52, 0x50, 0x54, 0x50, 0x49, 0x4E, 0x47];

/// Logout.
pub const TAG_RPTCL: [u8; 5] = [0x52, 0x50, 0x54, 0x43, 0x4C];

/// The master accepts.
pub const TAG_RPTACK: [u8; 6] = [0x52, 0x50, 0x54, 0x41, 0x43, 0x4B];

/// The master refuses.
pub const TAG_MSTNAK: [u8; 6] = [0x4D, 0x53, 0x54, 0x4E, 0x41, 0x4B];

/// The master answers a ping.
pub const TAG_MSTPONG: [u8; 7] = [0x4D, 0x53, 0x54, 0x50, 0x4F, 0x4E, 0x47];

/// The master disconnects.
pub const TAG_MSTCL: [u8; 5] = [0x4D, 0x53, 0x54, 0x43, 0x4C];

/// Voice or data.
pub const TAG_DMRD: [u8; 4] = [0x44, 0x4D, 0x52, 0x44];

/// The master asks for a beacon.
pub const TAG_RPTSBKN: [u8; 7] = [0x52, 0x50, 0x54, 0x53, 0x42, 0x4B, 0x4E];

/// Bytes of a challenge.
pub const NONCE_LEN: usize = 4;

/// Bytes of a digest.
pub const DIGEST_LEN: usize = 32;

/// Bytes of an answer to a challenge.
pub const RPTK_LEN: usize = 40;

/// Bytes of the longest packet that is received.
pub const MAX_RECV: usize = 512;

/// How long a login may take.
pub const AUTH_TIMEOUT: u64 = 10_000_000_000;

/// First delay before connecting again.
pub const BACKOFF_INITIAL: u64 = 1_000_000_000;

/// Longest delay before connecting again.
pub const BACKOFF_MAX: u64 = 60_000_000_000;

/// Bytes shown of a packet that was not expected.
pub const PREVIEW_LEN: usize = 10;

/// A step of a session.
#[derive(Debug, Clone, Copy, PartialEq, Eq, Structural)]
pub enum Stage {
    Login,
    Key,
    Config,
    Keepalive,
}

/// Why a session ends.
#[derive(Debug)]
pub enum NetworkError {
    /// The master refuses.
    MasterNak { stage: Stage },
    /// The master disconnects.
    MasterDisconnect,
    /// The master answers something else; with the first bytes of it.
    UnexpectedResponse { stage: Stage, preview: Vec<u8> },
    /// The master left this many pings unanswered.
    KeepaliveLost(u32),
}

/// What a packet of the master is.
#[derive(Debug)]
pub enum InboundEvent {
    Pong,
    Dmrd(Dmrd),
    DmrdParseError(DmrdError),
    MasterNak,
    MasterDisconnect,
    RptAck,
    RptSbkn,
    Unknown,
}

// ---------------------------------------------------------------------------
// Packets
// ---------------------------------------------------------------------------

/// `data` opens with `tag`.
pub open spec fn opens_with(data: Seq<u8>, tag: Seq<u8>) -> bool {
    data.len() >= tag.len() && data.subrange(0, tag.len() as int) == tag
}

/// `pkt` is a tag and an ID.
pub open spec fn is_tagged(pkt: Seq<u8>, tag: Seq<u8>, id: int) -> bool {
    let n = tag.len() as int;
    &&& pkt.len() == n + 4
    &&& pkt.subrange(0, n) == tag
    &&& be32(pkt[n], pkt[n + 1], pkt[n + 2], pkt[n + 3]) == id
}

/// `pkt` answers a challenge with a digest.
pub open spec fn is_answer(pkt: Seq<u8>, id: int, digest: Seq<u8>) -> bool {
    &&& pkt.len() == RPTK_LEN
    &&& pkt.subrange(0, 4) == TAG_RPTK@
    &&& be32(pkt[4], pkt[5], pkt[6], pkt[7]) == id
    &&& pkt.subrange(8, RPTK_LEN as int) == digest
}

/// The SHA-256 digest of bytes.
pub uninterp spec fn sha256_of(data: Seq<u8>) -> Seq<u8>;

/// Hashes bytes.
///
/// Calls `sha2::Sha256::digest`.  What it gives is named `sha256_of`; it depends
/// on the bytes alone.
#[verifier::external_body]
fn sha256(data: &[u8]) -> (r: [u8; DIGEST_LEN])
    ensures
        r@ == sha256_of(data@),
{
    sha2::Sha256::digest(data).into()
}

/// Whether `data` opens with `tag`.
fn starts_with(data: &[u8], tag: &[u8]) -> (r: bool)
    ensures
        r == opens_with(data@, tag@),
{
    if data.len() < tag.len() {
        return false;
    }
    let mut i: usize = 0;
    while i < tag.len()
        invariant
            i <= tag@.len() <= data@.len(),
            forall|k: int| 0 <= k < i ==> data@[k] == tag@[k],
        decreases tag@.len() - i,
    {
        if data[i] != tag[i] {
            assert(data@.subrange(0, tag@.len() as int)[i as int] != tag@[i as int]);
            return false;
        }
        i += 1;
    }
    assert(data@.subrange(0, tag@.len() as int) =~= tag@);
    true
}

/// A tag and the repeater's ID.
pub fn build_tagged(tag: &[u8], dmr_id: DmrId) -> (pkt: Vec<u8>)
    ensures
        is_tagged(pkt@, tag@, dmr_id.id() as int),
{
    let id = dmr_id.to_be_bytes();
    let mut pkt: Vec<u8> = Vec::new();
    pkt.extend_from_slice(tag);
    pkt.extend_from_slice(&id);
    proof {
        let n = tag@.len() as int;
        assert(pkt@.subrange(0, n) =~= tag@);
        assert(pkt@[n] == id[0] && pkt@[n + 1] == id[1] && pkt@[n + 2] == id[2] && pkt@[n + 3]
            == id[3]);
    }
    pkt
}

/// The answer to a challenge, with its digest.
pub fn build_answer(dmr_id: DmrId, digest: &[u8; DIGEST_LEN]) -> (pkt: Vec<u8>)
    ensures
        is_answer(pkt@, dmr_id.id() as int, digest@),
{
    let mut pkt = build_tagged(&TAG_RPTK, dmr_id);
    let ghost head = pkt@;
    pkt.extend_from_slice(digest);
    proof {
        assert(head.subrange(0, 4) == TAG_RPTK@);
        assert(pkt@.subrange(0, 4) =~= head.subrange(0, 4));
        assert(pkt@.subrange(8, RPTK_LEN as int) =~= digest@);
        assert(pkt@[4] == head[4] && pkt@[5] == head[5] && pkt@[6] == head[6] && pkt@[7] == head[7]);
    }
    pkt
}

/// The answer to a challenge: the digest of the challenge and the password.
pub fn build_rptk(dmr_id: DmrId, nonce: &[u8], password: &str) -> (pkt: Vec<u8>)
    ensures
        is_answer(pkt@, dmr_id.id() as int, sha256_of(nonce@ + encode_utf8(password@))),
{
    let mut data: Vec<u8> = Vec::new();
    data.extend_from_slice(nonce);
    data.extend_from_slice(password.as_bytes());
    assert(data@ =~= nonce@ + encode_utf8(password@));
    let digest = sha256(data.as_slice());
    build_answer(dmr_id, &digest)
}

/// The event that a packet stands for.
pub open spec fn is_event_of(event: InboundEvent, data: Seq<u8>) -> bool {
    if opens_with(data, TAG_MSTPONG@) {
        event is Pong
    } else if opens_with(data, TAG_DMRD@) {
        match event {
            InboundEvent::Dmrd(d) => parses_to(data, Ok(d)),
            InboundEvent::DmrdParseError(e) => parses_to(data, Err(e)),
            _ => false,
        }
    } else if opens_with(data, TAG_MSTNAK@) {
        event is MasterNak
    } else if opens_with(data, TAG_MSTCL@) {
        event is MasterDisconnect
    } else if opens_with(data, TAG_RPTACK@) {
        event is RptAck
    } else if opens_with(data, TAG_RPTSBKN@) {
        event is RptSbkn
    } else {
        event is Unknown
    }
}

/// Tells what a packet of the master is.
pub fn classify(data: &[u8]) -> (r: InboundEvent)
    ensures
        is_event_of(r, data@),
{
    if starts_with(data, &TAG_MSTPONG) {
        InboundEvent::Pong
    } else if starts_with(data, &TAG_DMRD) {
        match Dmrd::parse(data) {
            Ok(pkt) => InboundEvent::Dmrd(pkt),
            Err(e) => InboundEvent::DmrdParseError(e),
        }
    } else if starts_with(data, &TAG_MSTNAK) {
        InboundEvent::MasterNak
    } else if starts_with(data, &TAG_MSTCL) {
        InboundEvent::MasterDisconnect
    } else if starts_with(data, &TAG_RPTACK) {
        InboundEvent::RptAck
    } else if starts_with(data, &TAG_RPTSBKN) {
        InboundEvent::RptSbkn
    } else {
        InboundEvent::Unknown
    }
}

impl Stage {
    /// What the master refuses at this stage.
    pub fn refused(self) -> (r: &'static str)
        ensures
            r@ == match self {
                Stage::Login => "login"@,
                Stage::Key => "auth (incorrect password)"@,
                Stage::Config => "config"@,
                Stage::Keepalive => "keepalive"@,
            },
    {
        match self {
            Stage::Login => "login",
            Stage::Key => "auth (incorrect password)",
            Stage::Config => "config",
            Stage::Keepalive => "keepalive",
        }
    }

    /// The tag that the master should have answered at this stage.
    pub fn sent_tag(self) -> (r: &'static str)
        ensures
            r@ == match self {
                Stage::Login => "RPTL"@,
                Stage::Key => "RPTK"@,
                Stage::Config => "RPTC"@,
                Stage::Keepalive => "RPTPING"@,
            },
    {
        match self {
            Stage::Login => "RPTL",
            Stage::Key => "RPTK",
            Stage::Config => "RPTC",
            Stage::Keepalive => "RPTPING",
        }
    }
}

// ---------------------------------------------------------------------------
// Login
// ---------------------------------------------------------------------------

/// What a login waits for.
#[derive(Debug, Clone, Copy, PartialEq, Eq, Structural)]
pub enum LoginState {
    /// The challenge.
    Challenge,
    /// That the answer is accepted.
    KeyAck,
    /// That the description is accepted.
    ConfigAck,
    /// Nothing more: the repeater is logged in.
    Done,
    /// Nothing more: the login failed.
    Failed,
}

/// What a login does next.
#[derive(Debug)]
pub enum LoginStep {
    /// Wait for another packet.
    Wait,
    /// Send this and wait.
    Send(Vec<u8>),
    /// The repeater is logged in.
    Done,
    /// The login failed.
    Fail(NetworkError),
}

/// The first bytes of a packet.
pub open spec fn preview_of(data: Seq<u8>) -> Seq<u8> {
    if data.len() < PREVIEW_LEN {
        data
    } else {
        data.subrange(0, PREVIEW_LEN as int)
    }
}

/// The challenge in a packet that carries one.
pub open spec fn challenge_of(data: Seq<u8>) -> Seq<u8> {
    data.subrange(TAG_RPTACK.len() as int, TAG_RPTACK.len() + NONCE_LEN)
}

/// A packet carries a challenge.
pub open spec fn is_challenge(data: Seq<u8>) -> bool {
    opens_with(data, TAG_RPTACK@) && data.len() >= TAG_RPTACK.len() + NONCE_LEN
}

/// The login fails at a stage that waits for an acceptance, on a packet that
/// is none.
pub open spec fn is_refusal(step: LoginStep, stage: Stage, data: Seq<u8>) -> bool {
    if opens_with(data, TAG_MSTNAK@) {
        step matches LoginStep::Fail(NetworkError::MasterNak { stage: s }) && s == stage
    } else {
        &&& !opens_with(data, TAG_RPTACK@)
        &&& step matches LoginStep::Fail(NetworkError::UnexpectedResponse { stage: s, preview })
        &&& s == stage
        &&& preview@ == preview_of(data)
    }
}

/// `step` and `next` are what a login in `state` does on a packet.
pub open spec fn is_login_step(
    state: LoginState,
    data: Seq<u8>,
    id: int,
    password: Seq<char>,
    description: Seq<u8>,
    step: LoginStep,
    next: LoginState,
) -> bool {
    match state {
        LoginState::Challenge => if opens_with(data, TAG_MSTNAK@) {
            is_refusal(step, Stage::Login, data) && next is Failed
        } else if is_challenge(data) {
            &&& step matches LoginStep::Send(pkt)
            &&& is_answer(pkt@, id, sha256_of(challenge_of(data) + encode_utf8(password)))
            &&& next is KeyAck
        } else {
            step is Wait && next is Challenge
        },
        LoginState::KeyAck => if opens_with(data, TAG_RPTACK@) {
            &&& step matches LoginStep::Send(pkt)
            &&& pkt@ == description
            &&& next is ConfigAck
        } else {
            is_refusal(step, Stage::Key, data) && next is Failed
        },
        LoginState::ConfigAck => if opens_with(data, TAG_RPTACK@) {
            step is Done && next is Done
        } else {
            is_refusal(step, Stage::Config, data) && next is Failed
        },
        LoginState::Done => step is Done && next is Done,
        LoginState::Failed => step is Wait && next is Failed,
    }
}

/// The failure of a stage that waits for an acceptance.
fn refuse(stage: Stage, data: &[u8]) -> (step: LoginStep)
    requires
        !opens_with(data@, TAG_RPTACK@),
    ensures
        is_refusal(step, stage, data@),
{
    if starts_with(data, &TAG_MSTNAK) {
        return LoginStep::Fail(NetworkError::MasterNak { stage });
    }
    let mut preview: Vec<u8> = Vec::new();
    let mut i: usize = 0;
    while i < data.len() && i < PREVIEW_LEN
        invariant
            i <= data@.len(),
            i <= PREVIEW_LEN,
            preview@ == data@.subrange(0, i as int),
        decreases PREVIEW_LEN - i,
    {
        preview.push(data[i]);
        i += 1;
        assert(preview@ =~= data@.subrange(0, i as int));
    }
    assert(data@.subrange(0, data@.len() as int) =~= data@);
    LoginStep::Fail(NetworkError::UnexpectedResponse { stage, preview })
}

proof fn lemma_ack_is_no_nak(data: Seq<u8>)
    ensures
        !(opens_with(data, TAG_RPTACK@) && opens_with(data, TAG_MSTNAK@)),
{
    if opens_with(data, TAG_RPTACK@) && opens_with(data, TAG_MSTNAK@) {
        assert(data.subrange(0, 6)[0] == TAG_RPTACK@[0]);
        assert(data.subrange(0, 6)[0] == TAG_MSTNAK@[0]);
    }
}

/// What a login does on a packet of the master.  `description` is the packet
/// that describes the station.
pub fn login_step(
    state: &mut LoginState,
    data: &[u8],
    dmr_id: DmrId,
    password: &str,
    description: &Vec<u8>,
) -> (step: LoginStep)
    ensures
        is_login_step(
            *old(state),
            data@,
            dmr_id.id() as int,
            password@,
            description@,
            step,
            *final(state),
        ),
{
    proof {
        lemma_ack_is_no_nak(data@);
    }
    match *state {
        LoginState::Challenge => {
            if starts_with(data, &TAG_MSTNAK) {
                *state = LoginState::Failed;
                return LoginStep::Fail(NetworkError::MasterNak { stage: Stage::Login });
            }
            if starts_with(data, &TAG_RPTACK) && data.len() >= TAG_RPTACK.len() + NONCE_LEN {
                let nonce: [u8; NONCE_LEN] = [data[6], data[7], data[8], data[9]];
                assert(nonce@ =~= challenge_of(data@));
                *state = LoginState::KeyAck;
                return LoginStep::Send(build_rptk(dmr_id, &nonce, password));
            }
            LoginStep::Wait
        },
        LoginState::KeyAck => {
            if starts_with(data, &TAG_RPTACK) {
                *state = LoginState::ConfigAck;
                let mut pkt: Vec<u8> = Vec::new();
                pkt.extend_from_slice(description.as_slice());
                assert(pkt@ =~= description@);
                return LoginStep::Send(pkt);
            }
            *state = LoginState::Failed;
            refuse(Stage::Key, data)
        },
        LoginState::ConfigAck => {
            if starts_with(data, &TAG_RPTACK) {
                *state = LoginState::Done;
                return LoginStep::Done;
            }
            *state = LoginState::Failed;
            refuse(Stage::Config, data)
        },
        LoginState::Done => LoginStep::Done,
        LoginState::Failed => LoginStep::Wait,
    }
}

/// Law: a refusal of the master ends a login that has not ended, whatever it
/// waits for.
pub proof fn law_refusal_ends_login(
    state: LoginState,
    data: Seq<u8>,
    id: int,
    password: Seq<char>,
    description: Seq<u8>,
    step: LoginStep,
    next: LoginState,
)
    requires
        opens_with(data, TAG_MSTNAK@),
        state !is Done,
        state !is Failed,
        is_login_step(state, data, id, password, description, step, next),
    ensures
        next is Failed,
        step matches LoginStep::Fail(NetworkError::MasterNak { stage }) && stage == match state {
            LoginState::Challenge => Stage::Login,
            LoginState::KeyAck => Stage::Key,
            _ => Stage::Config,
        },
{
    lemma_ack_is_no_nak(data);
}

/// Law: a login that ends well has, in this order, got a challenge, had its
/// answer accepted and had its description accepted.
pub proof fn law_login_order(
    state: LoginState,
    data: Seq<u8>,
    id: int,
    password: Seq<char>,
    description: Seq<u8>,
    step: LoginStep,
    next: LoginState,
)
    requires
        is_login_step(state, data, id, password, description, step, next),
        next != state,
    ensures
        next is KeyAck ==> state is Challenge && is_challenge(data),
        next is ConfigAck ==> state is KeyAck && opens_with(data, TAG_RPTACK@),
        next is Done ==> state is ConfigAck && opens_with(data, TAG_RPTACK@),
        next !is Challenge,
{
}

// ---------------------------------------------------------------------------
// Keepalive
// ---------------------------------------------------------------------------

/// Which pings were answered.
#[derive(Debug, Clone, Copy, PartialEq, Eq, Structural)]
pub struct KeepaliveTracker {
    pub last_ping: Option<u64>,
    pub last_pong: u64,
    pub missed: u32,
    pub missed_limit: u32,
}

impl KeepaliveTracker {
    /// The last ping is unanswered.
    pub open spec fn unanswered(self) -> bool {
        self.last_ping matches Some(prev) && self.last_pong < prev
    }

    /// The tracker after a check.
    pub open spec fn checked(self) -> Self {
        KeepaliveTracker {
            missed: if self.unanswered() {
                (self.missed + 1) as u32
            } else {
                self.missed
            },
            ..self
        }
    }

    /// A check finds the session lost.
    pub open spec fn lost(self) -> bool {
        self.unanswered() && self.missed + 1 >= self.missed_limit
    }

    /// The tracker after a ping.
    pub open spec fn pinged(self, at: u64) -> Self {
        KeepaliveTracker { last_ping: Some(at), ..self }
    }

    pub fn new(missed_limit: u32, now: u64) -> (r: Self)
        ensures
            r == (KeepaliveTracker { last_ping: None, last_pong: now, missed: 0, missed_limit }),
    {
        KeepaliveTracker { last_ping: None, last_pong: now, missed: 0, missed_limit }
    }

    /// Counts an unanswered ping before the next one is sent.  Fails when as
    /// many in a row as the limit are unanswered.
    pub fn check_missed(&mut self) -> (r: Result<(), NetworkError>)
        requires
            old(self).missed < u32::MAX,
        ensures
            *final(self) == old(self).checked(),
            match r {
                Ok(_) => !old(self).lost(),
                Err(e) => old(self).lost() && e == NetworkError::KeepaliveLost(final(self).missed),
            },
    {
        if let Some(prev) = self.last_ping {
            if self.last_pong < prev {
                self.missed += 1;
                if self.missed >= self.missed_limit {
                    return Err(NetworkError::KeepaliveLost(self.missed));
                }
            }
        }
        Ok(())
    }

    pub fn record_ping(&mut self, at: u64)
        ensures
            *final(self) == old(self).pinged(at),
    {
        self.last_ping = Some(at);
    }

    pub fn record_pong(&mut self, at: u64)
        ensures
            *final(self) == (KeepaliveTracker { last_pong: at, missed: 0, ..*old(self) }),
    {
        self.last_pong = at;
        self.missed = 0;
    }

    /// Pings in a row that are unanswered.
    pub fn missed(&self) -> (r: u32)
        ensures
            r == self.missed,
    {
        self.missed
    }
}

/// The tracker after the given pings, each but the first sent after a check,
/// and no answer to any.
pub open spec fn after_pings(t: KeepaliveTracker, pings: Seq<u64>) -> KeepaliveTracker
    decreases pings.len(),
{
    if pings.len() == 0 {
        t
    } else {
        after_pings(t, pings.drop_last()).checked().pinged(pings.last())
    }
}

/// Law: of pings that are sent after the last answer and stay unanswered, each
/// check counts one.  So the check that finds the session lost is the one
/// after as many pings as the limit, and none before it.
pub proof fn law_keepalive_lost(t: KeepaliveTracker, pings: Seq<u64>)
    requires
        t.missed == 0,
        !t.unanswered(),
        0 < pings.len() <= u32::MAX,
        forall|i: int| 0 <= i < pings.len() ==> t.last_pong < #[trigger] pings[i],
    ensures
        after_pings(t, pings).checked().missed == pings.len(),
        after_pings(t, pings).lost() <==> pings.len() >= t.missed_limit,
{
    lemma_after_pings(t, pings);
    assert(t.last_pong < pings[pings.len() - 1]);
}

proof fn lemma_after_pings(t: KeepaliveTracker, pings: Seq<u64>)
    requires
        t.missed == 0,
        !t.unanswered(),
        0 < pings.len() <= u32::MAX,
        forall|i: int| 0 <= i < pings.len() ==> t.last_pong < #[trigger] pings[i],
    ensures
        after_pings(t, pings) == (KeepaliveTracker {
            last_ping: Some(pings.last()),
            missed: (pings.len() - 1) as u32,
            ..t
        }),
    decreases pings.len(),
{
    reveal_with_fuel(after_pings, 2);
    if pings.len() > 1 {
        let before = pings.drop_last();
        assert(before.last() == pings[pings.len() - 2]);
        lemma_after_pings(t, before);
    } else {
        assert(pings.drop_last().len() == 0);
    }
}

/// What a session does on a packet of the master.
#[derive(Debug)]
pub enum SessionStep {
    /// Nothing.
    Ignore,
    /// Hand the packet on.
    Forward(Dmrd),
    /// Report a broken packet.
    Broken(DmrdError),
    /// Report an unknown packet.
    Unknown,
    /// End the session.
    Fail(NetworkError),
}

/// What a session does on a packet of the master at time `now`.
pub fn session_step(tracker: &mut KeepaliveTracker, data: &[u8], now: u64) -> (r: SessionStep)
    ensures
        exists|event: InboundEvent| #[trigger]
            is_event_of(event, data@) && {
                &&& *final(tracker) == if event is Pong {
                    (KeepaliveTracker { last_pong: now, missed: 0, ..*old(tracker) })
                } else {
                    *old(tracker)
                }
                &&& match event {
                    InboundEvent::Pong | InboundEvent::RptAck | InboundEvent::RptSbkn => r is Ignore,
                    InboundEvent::Dmrd(pkt) => r == SessionStep::Forward(pkt),
                    InboundEvent::DmrdParseError(e) => r == SessionStep::Broken(e),
                    InboundEvent::MasterNak => r == SessionStep::Fail(
                        NetworkError::MasterNak { stage: Stage::Keepalive },
                    ),
                    InboundEvent::MasterDisconnect => r == SessionStep::Fail(
                        NetworkError::MasterDisconnect,
                    ),
                    InboundEvent::Unknown => r is Unknown,
                }
            },
{
    let event = classify(data);
    assert(is_event_of(event, data@));
    match event {
        InboundEvent::Pong => {
            tracker.record_pong(now);
            SessionStep::Ignore
        },
        InboundEvent::Dmrd(pkt) => SessionStep::Forward(pkt),
        InboundEvent::DmrdParseError(e) => SessionStep::Broken(e),
        InboundEvent::MasterNak => SessionStep::Fail(
            NetworkError::MasterNak { stage: Stage::Keepalive },
        ),
        InboundEvent::MasterDisconnect => SessionStep::Fail(NetworkError::MasterDisconnect),
        InboundEvent::RptAck => SessionStep::Ignore,
        InboundEvent::RptSbkn => SessionStep::Ignore,
        InboundEvent::Unknown => SessionStep::Unknown,
    }
}

// ---------------------------------------------------------------------------
// Reconnection
// ---------------------------------------------------------------------------

/// How long to wait before connecting again.
#[derive(Debug, Clone, Copy, PartialEq, Eq, Structural)]
pub struct ReconnectBackoff {
    current: u64,
}

/// Twice the delay, up to the longest.
pub open spec fn doubled(delay: int) -> int {
    if 2 * delay < BACKOFF_MAX {
        2 * delay
    } else {
        BACKOFF_MAX as int
    }
}

/// The delay after `n` failures in a row.
pub open spec fn delay_after(n: int) -> int
    decreases n,
{
    if n <= 0 {
        BACKOFF_INITIAL as int
    } else {
        doubled(delay_after(n - 1))
    }
}

impl ReconnectBackoff {
    #[verifier::type_invariant]
    spec fn inv(self) -> bool {
        BACKOFF_INITIAL <= self.current <= BACKOFF_MAX
    }

    /// The next delay.
    pub closed spec fn delay(self) -> int {
        self.current as int
    }

    pub fn new() -> (r: Self)
        ensures
            r.delay() == BACKOFF_INITIAL,
    {
        ReconnectBackoff { current: BACKOFF_INITIAL }
    }

    pub fn current(&self) -> (r: u64)
        ensures
            r == self.delay(),
            BACKOFF_INITIAL <= r <= BACKOFF_MAX,
    {
        proof {
            use_type_invariant(self);
        }
        self.current
    }

    pub fn double(&mut self)
        ensures
            final(self).delay() == doubled(old(self).delay()),
    {
        proof {
            use_type_invariant(&*self);
        }
        let twice: u64 = self.current * 2;
        self.current = if twice < BACKOFF_MAX {
            twice
        } else {
            BACKOFF_MAX
        };
    }

    pub fn reset(&mut self)
        ensures
            final(self).delay() == BACKOFF_INITIAL,
    {
        self.current = BACKOFF_INITIAL;
    }

    /// The delay after a session failed, and the next one.  A session that had
    /// logged in starts the delays anew.
    pub fn on_failure(&mut self, authed: bool) -> (r: u64)
        ensures
            r == if authed {
                BACKOFF_INITIAL as int
            } else {
                old(self).delay()
            },
            final(self).delay() == doubled(r as int),
    {
        if authed {
            self.reset();
        }
        let r: u64 = self.current();
        self.double();
        r
    }
}

/// Law: the delays double from the first to the longest and stay there.
pub proof fn law_backoff(n: int)
    requires
        0 <= n,
    ensures
        BACKOFF_INITIAL <= delay_after(n) <= delay_after(n + 1) <= BACKOFF_MAX,
        n < 6 ==> delay_after(n) == BACKOFF_INITIAL * vstd::arithmetic::power::pow(2, n as nat),
        n >= 6 ==> delay_after(n) == BACKOFF_MAX,
    decreases n,
{
    reveal_with_fuel(delay_after, 8);
    reveal_with_fuel(vstd::arithmetic::power::pow, 7);
    if n > 0 {
        law_backoff(n - 1);
    }
}

/// A packet opens with "MSTPONG".
proof fn lemma_opens_mstpong(data: Seq<u8>)
    ensures
        opens_with(data, TAG_MSTPONG@) <==> data.len() >= 7 && data[0] == 0x4D && data[1] == 0x53 && data[2] == 0x54 && data[3] == 0x50 && data[4] == 0x4F && data[5] == 0x4E && data[6] == 0x47,
{
    if data.len() >= 7 {
        let o = data.subrange(0, 7);
        assert(o[0] == data[0] && o[1] == data[1] && o[2] == data[2] && o[3] == data[3] && o[4] == data[4] && o[5] == data[5] && o[6] == data[6]);
        if data.len() >= 7 && data[0] == 0x4D && data[1] == 0x53 && data[2] == 0x54 && data[3] == 0x50 && data[4] == 0x4F && data[5] == 0x4E && data[6] == 0x47 {
            assert(o =~= TAG_MSTPONG@);
        }
    }
}

/// A packet opens with "MSTNAK".
proof fn lemma_opens_mstnak(data: Seq<u8>)
    ensures
        opens_with(data, TAG_MSTNAK@) <==> data.len() >= 6 && data[0] == 0x4D && data[1] == 0x53 && data[2] == 0x54 && data[3] == 0x4E && data[4] == 0x41 && data[5] == 0x4B,
{
    if data.len() >= 6 {
        let o = data.subrange(0, 6);
        assert(o[0] == data[0] && o[1] == data[1] && o[2] == data[2] && o[3] == data[3] && o[4] == data[4] && o[5] == data[5]);
        if data.len() >= 6 && data[0] == 0x4D && data[1] == 0x53 && data[2] == 0x54 && data[3] == 0x4E && data[4] == 0x41 && data[5] == 0x4B {
            assert(o =~= TAG_MSTNAK@);
        }
    }
}

/// A packet opens with "MSTCL".
proof fn lemma_opens_mstcl(data: Seq<u8>)
    ensures
        opens_with(data, TAG_MSTCL@) <==> data.len() >= 5 && data[0] == 0x4D && data[1] == 0x53 && data[2] == 0x54 && data[3] == 0x43 && data[4] == 0x4C,
{
    if data.len() >= 5 {
        let o = data.subrange(0, 5);
        assert(o[0] == data[0] && o[1] == data[1] && o[2] == data[2] && o[3] == data[3] && o[4] == data[4]);
        if data.len() >= 5 && data[0] == 0x4D && data[1] == 0x53 && data[2] == 0x54 && data[3] == 0x43 && data[4] == 0x4C {
            assert(o =~= TAG_MSTCL@);
        }
    }
}

/// A packet opens with "RPTACK".
proof fn lemma_opens_rptack(data: Seq<u8>)
    ensures
        opens_with(data, TAG_RPTACK@) <==> data.len() >= 6 && data[0] == 0x52 && data[1] == 0x50 && data[2] == 0x54 && data[3] == 0x41 && data[4] == 0x43 && data[5] == 0x4B,
{
    if data.len() >= 6 {
        let o = data.subrange(0, 6);
        assert(o[0] == data[0] && o[1] == data[1] && o[2] == data[2] && o[3] == data[3] && o[4] == data[4] && o[5] == data[5]);
        if data.len() >= 6 && data[0] == 0x52 && data[1] == 0x50 && data[2] == 0x54 && data[3] == 0x41 && data[4] == 0x43 && data[5] == 0x4B {
            assert(o =~= TAG_RPTACK@);
        }
    }
}

/// A packet opens with "RPTSBKN".
proof fn lemma_opens_rptsbkn(data: Seq<u8>)
    ensures
        opens_with(data, TAG_RPTSBKN@) <==> data.len() >= 7 && data[0] == 0x52 && data[1] == 0x50 && data[2] == 0x54 && data[3] == 0x53 && data[4] == 0x42 && data[5] == 0x4B && data[6] == 0x4E,
{
    if data.len() >= 7 {
        let o = data.subrange(0, 7);
        assert(o[0] == data[0] && o[1] == data[1] && o[2] == data[2] && o[3] == data[3] && o[4] == data[4] && o[5] == data[5] && o[6] == data[6]);
        if data.len() >= 7 && data[0] == 0x52 && data[1] == 0x50 && data[2] == 0x54 && data[3] == 0x53 && data[4] == 0x42 && data[5] == 0x4B && data[6] == 0x4E {
            assert(o =~= TAG_RPTSBKN@);
        }
    }
}

/// A packet opens with "DMRD".
proof fn lemma_opens_dmrd(data: Seq<u8>)
    ensures
        opens_with(data, TAG_DMRD@) <==> data.len() >= 4 && data[0] == 0x44 && data[1] == 0x4D && data[2] == 0x52 && data[3] == 0x44,
{
    if data.len() >= 4 {
        let o = data.subrange(0, 4);
        assert(o[0] == data[0] && o[1] == data[1] && o[2] == data[2] && o[3] == data[3]);
        if data.len() >= 4 && data[0] == 0x44 && data[1] == 0x4D && data[2] == 0x52 && data[3] == 0x44 {
            assert(o =~= TAG_DMRD@);
        }
    }
}

/// Law: a packet that is a tag and an ID is the bytes of the tag and the four of the
/// ID, the most significant first.
pub proof fn law_tagged_bytes(pkt: Seq<u8>, tag: Seq<u8>, id: int)
    requires
        is_tagged(pkt, tag, id),
    ensures
        pkt.len() == tag.len() + 4,
        forall|i: int| 0 <= i < tag.len() ==> #[trigger] pkt[i] == tag[i],
        ({
            let n = tag.len() as int;
            0x100_0000 * pkt[n] + 0x1_0000 * pkt[n + 1] + 0x100 * pkt[n + 2] + pkt[n + 3] == id
        }),
{
    assert forall|i: int| 0 <= i < tag.len() implies #[trigger] pkt[i] == tag[i] by {
        assert(pkt.subrange(0, tag.len() as int)[i] == tag[i]);
    }
}

/// Law: an answer to a challenge is "RPTK", the ID in four bytes, the most significant
/// first, and the digest.
pub proof fn law_answer_bytes(pkt: Seq<u8>, id: int, digest: Seq<u8>)
    requires
        is_answer(pkt, id, digest),
    ensures
        pkt.len() == 40,
        pkt[0] == 0x52 && pkt[1] == 0x50 && pkt[2] == 0x54 && pkt[3] == 0x4B,
        0x100_0000 * pkt[4] + 0x1_0000 * pkt[5] + 0x100 * pkt[6] + pkt[7] == id,
        digest.len() == 32,
        forall|i: int| 0 <= i < 32 ==> #[trigger] pkt[8 + i] == digest[i],
{
    let o = pkt.subrange(0, 4);
    assert(o[0] == pkt[0] && o[1] == pkt[1] && o[2] == pkt[2] && o[3] == pkt[3]);
    assert forall|i: int| 0 <= i < 32 implies #[trigger] pkt[8 + i] == digest[i] by {
        assert(pkt.subrange(8, 40)[i] == pkt[8 + i]);
    }
}

/// Law: what a packet of the master is is told by its first bytes, "MSTPONG", "MSTNAK",
/// "MSTCL", "RPTACK", "RPTSBKN" or "DMRD", and for the last by what is read from it.
pub proof fn law_packets_told_apart(event: InboundEvent, data: Seq<u8>)
    requires
        is_event_of(event, data),
    ensures
        event is Pong <==> data.len() >= 7 && data[0] == 0x4D && data[1] == 0x53 && data[2] == 0x54 && data[3] == 0x50 && data[4] == 0x4F && data[5] == 0x4E && data[6] == 0x47,
        event is MasterNak <==> data.len() >= 6 && data[0] == 0x4D && data[1] == 0x53 && data[2] == 0x54 && data[3] == 0x4E && data[4] == 0x41 && data[5] == 0x4B,
        event is MasterDisconnect <==> data.len() >= 5 && data[0] == 0x4D && data[1] == 0x53 && data[2] == 0x54 && data[3] == 0x43 && data[4] == 0x4C,
        event is RptAck <==> data.len() >= 6 && data[0] == 0x52 && data[1] == 0x50 && data[2] == 0x54 && data[3] == 0x41 && data[4] == 0x43 && data[5] == 0x4B,
        event is RptSbkn <==> data.len() >= 7 && data[0] == 0x52 && data[1] == 0x50 && data[2] == 0x54 && data[3] == 0x53 && data[4] == 0x42 && data[5] == 0x4B && data[6] == 0x4E,
        event is Dmrd || event is DmrdParseError <==> data.len() >= 4 && data[0] == 0x44 && data[1] == 0x4D && data[2] == 0x52 && data[3] == 0x44,
        event matches InboundEvent::Dmrd(d) ==> parses_to(data, Ok(d)),
        event matches InboundEvent::DmrdParseError(e) ==> parses_to(data, Err(e)),
{
    lemma_opens_mstpong(data);
    lemma_opens_mstnak(data);
    lemma_opens_mstcl(data);
    lemma_opens_rptack(data);
    lemma_opens_rptsbkn(data);
    lemma_opens_dmrd(data);
}

/// Law: a login answers the first "RPTACK" that holds a challenge of four bytes with
/// the digest of the challenge and the password, the next with the description, and is
/// done with the third; before the challenge it waits over anything but "MSTNAK", and
/// after it ends on anything else.
pub proof fn law_login(
    state: LoginState,
    data: Seq<u8>,
    id: int,
    password: Seq<char>,
    description: Seq<u8>,
    step: LoginStep,
    next: LoginState,
)
    requires
        is_login_step(state, data, id, password, description, step, next),
    ensures
        ({
            let ack = data.len() >= 6 && data[0] == 0x52 && data[1] == 0x50 && data[2] == 0x54 && data[3] == 0x41 && data[4] == 0x43 && data[5] == 0x4B;
            let nak = data.len() >= 6 && data[0] == 0x4D && data[1] == 0x53 && data[2] == 0x54 && data[3] == 0x4E && data[4] == 0x41 && data[5] == 0x4B;
            &&& state is Challenge && ack && data.len() >= 10 ==> {
                &&& next is KeyAck
                &&& step matches LoginStep::Send(pkt)
                &&& is_answer(
                    pkt@,
                    id,
                    sha256_of(seq![data[6], data[7], data[8], data[9]] + encode_utf8(password)),
                )
            }
            &&& state is Challenge && !nak && !(ack && data.len() >= 10) ==> step is Wait && next is Challenge
            &&& state is KeyAck && ack ==> next is ConfigAck && (step matches LoginStep::Send(pkt) && pkt@
                == description)
            &&& state is ConfigAck && ack ==> next is Done && step is Done
            &&& state is Challenge && nak ==> next is Failed && (step matches LoginStep::Fail(
                NetworkError::MasterNak { stage },
            ) && stage is Login)
            &&& state is KeyAck && nak ==> next is Failed && (step matches LoginStep::Fail(
                NetworkError::MasterNak { stage },
            ) && stage is Key)
            &&& state is ConfigAck && nak ==> next is Failed && (step matches LoginStep::Fail(
                NetworkError::MasterNak { stage },
            ) && stage is Config)
            &&& (state is KeyAck || state is ConfigAck) && !ack && !nak ==> {
                &&& next is Failed
                &&& step matches LoginStep::Fail(NetworkError::UnexpectedResponse { stage, preview })
                &&& stage is Key <==> state is KeyAck
                &&& stage is Config <==> state is ConfigAck
                &&& preview@.len() == if data.len() < 10 {
                    data.len() as int
                } else {
                    10
                }
                &&& forall|i: int| 0 <= i < preview@.len() ==> #[trigger] preview@[i] == data[i]
            }
            &&& state is Done ==> step is Done && next is Done
            &&& state is Failed ==> step is Wait && next is Failed
        }),
{
    lemma_opens_mstnak(data);
    lemma_opens_rptack(data);
    if data.len() >= 10 {
        assert(challenge_of(data) =~= seq![data[6], data[7], data[8], data[9]]);
    }
}

/// Law: a check counts a miss exactly if a ping was sent after the last answer, and
/// finds the session lost exactly if that makes as many misses as the limit.
pub proof fn law_keepalive_check(t: KeepaliveTracker, at: u64)
    requires
        t.missed < u32::MAX,
    ensures
        ({
            let open = t.last_ping is Some && t.last_ping->0 > t.last_pong;
            &&& t.checked().missed == t.missed + (if open {
                1int
            } else {
                0
            })
            &&& t.checked().last_ping == t.last_ping
            &&& t.checked().last_pong == t.last_pong
            &&& t.checked().missed_limit == t.missed_limit
            &&& t.lost() <==> open && t.missed + 1 >= t.missed_limit
        }),
        t.pinged(at).last_ping == Some(at),
        t.pinged(at).last_pong == t.last_pong,
        t.pinged(at).missed == t.missed,
        t.pinged(at).missed_limit == t.missed_limit,
{
}

/// Law: the delays before connecting again are 1, 2, 4, 8, 16 and 32 seconds and then a
/// minute.
pub proof fn law_delays(n: int)
    requires
        0 <= n,
    ensures
        delay_after(n) == (if n < 6 {
            1_000_000_000 * vstd::arithmetic::power::pow(2, n as nat)
        } else {
            60_000_000_000
        }),
        delay_after(n + 1) == doubled(delay_after(n)),
        doubled(n) == 2 * n || doubled(n) == 60_000_000_000,
        doubled(n) <= 2 * n,
        doubled(n) <= 60_000_000_000,
        AUTH_TIMEOUT == 10_000_000_000,
{
    law_backoff(n);
}

} // verus!
