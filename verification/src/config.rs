//! Rules on the configuration: which values of a field are valid, and where a
//! secret may come from.

use vstd::prelude::*;
use vstd::string::*;
use vstd::utf8::*;

use crate::text::{
    digits, fmt_digits, has_line_break, law_digits, lemma_encode_ascii, power_of_ten, trim, trimmed,
};

verus! {

/// Most characters of a callsign.
pub const MAX_CALLSIGN_LEN: usize = 8;

/// Decimal digits of a frequency.
pub const FREQ_DIGITS: usize = 9;

/// Highest frequency, in hertz.
pub const MAX_FREQ_HZ: u32 = 999_999_999;

/// How often a stuck transmission is ended, in nanoseconds, unless configured.
pub const DEFAULT_TX_TIMEOUT: u64 = 180_000_000_000;

/// Sources that can supply a secret.
pub const SECRET_SOURCES: usize = 4;

/// Why a field is not valid.
#[derive(Debug, Clone, Copy, PartialEq, Eq, Structural)]
pub enum FieldError {
    FrequencyZero,
    FrequencyTooLarge,
    CallsignEmpty,
    /// With the length in bytes.
    CallsignTooLong(usize),
    CallsignNotAlphanumeric,
}

/// Why a configuration is not valid.
#[derive(Debug, Clone, Copy, PartialEq, Eq, Structural)]
pub enum ConfigError {
    KeepaliveIntervalZero,
    NeuralBothNonNeural,
}

/// Why a password cannot be picked.
#[derive(Debug, Clone)]
pub enum PasswordError {
    /// No source supplies one.
    Missing,
    /// Several do; with their names.
    Ambiguous(Vec<&'static str>),
}

/// Why an API key cannot be picked.
#[derive(Debug, Clone, Copy, PartialEq, Eq, Structural)]
pub enum ApiKeyError {
    /// Several sources supply one.
    Ambiguous,
    /// None does, though talkgroups of this slot are to be provisioned.
    MissingForStatics { slot: u8 },
}

/// A file for one secret holds several lines.
#[derive(Debug, Clone, Copy, PartialEq, Eq, Structural)]
pub struct Multiline;

/// Vocoder that is used.
#[derive(Debug, Clone, Copy, PartialEq, Eq, Structural)]
pub enum VocoderBackend {
    ThumbDV,
    Ambeserver,
    Neural,
    Dynarmic,
}

/// Vocoder of one direction of the neural backend.
#[derive(Debug, Clone, Copy, PartialEq, Eq, Structural)]
pub enum NeuralHalf {
    Neural,
    Dynarmic,
    ThumbDV,
    Ambeserver,
}

/// The encoder of the neural backend, where none is configured.
pub fn default_neural_encoder_backend() -> (r: NeuralHalf)
    ensures
        r is Neural,
{
    NeuralHalf::Neural
}

/// The decoder of the neural backend, where none is configured.
pub fn default_neural_decoder_backend() -> (r: NeuralHalf)
    ensures
        r is Dynarmic,
{
    NeuralHalf::Dynarmic
}

/// Directions in which voice is forwarded.
#[derive(Debug, Clone, Copy, PartialEq, Eq, Structural)]
pub enum GatewayMode {
    Both,
    DmrToFm,
    FmToDmr,
}

// ---------------------------------------------------------------------------
// Fields
// ---------------------------------------------------------------------------

/// A frequency in hertz: not zero, and at most nine decimal digits.
#[derive(Debug, Clone, Copy, PartialEq, Eq, Structural)]
pub struct Frequency(u32);

impl Frequency {
    #[verifier::type_invariant]
    spec fn inv(self) -> bool {
        0 < self.0 <= MAX_FREQ_HZ
    }

    /// The frequency in hertz.
    pub closed spec fn hz(self) -> int {
        self.0 as int
    }

    pub fn new(v: u32) -> (r: Result<Frequency, FieldError>)
        ensures
            match r {
                Ok(f) => 0 < v <= MAX_FREQ_HZ && f.hz() == v,
                Err(e) => if v == 0 {
                    e == FieldError::FrequencyZero
                } else {
                    v > MAX_FREQ_HZ && e == FieldError::FrequencyTooLarge
                },
            },
    {
        if v == 0 {
            return Err(FieldError::FrequencyZero);
        }
        if v > MAX_FREQ_HZ {
            return Err(FieldError::FrequencyTooLarge);
        }
        Ok(Frequency(v))
    }

    /// Nine decimal digits.
    pub fn as_rptc_digits(self) -> (r: String)
        ensures
            r@ == digits(self.hz(), FREQ_DIGITS as int),
            r@.len() == FREQ_DIGITS,
            crate::text::number(r@) == self.hz(),
    {
        proof {
            use_type_invariant(self);
            reveal_with_fuel(power_of_ten, 10);
            law_digits(self.0 as int, FREQ_DIGITS as int);
        }
        fmt_digits(self.0, FREQ_DIGITS)
    }
}

/// A letter or a digit of ASCII.
pub open spec fn is_alphanumeric(c: char) -> bool {
    ||| '0' <= c <= '9'
    ||| 'A' <= c <= 'Z'
    ||| 'a' <= c <= 'z'
}

/// Letters and digits of ASCII alone.
pub open spec fn all_alphanumeric(s: Seq<char>) -> bool {
    forall|i: int| 0 <= i < s.len() ==> is_alphanumeric(#[trigger] s[i])
}

fn check_alphanumeric(s: &str) -> (r: bool)
    ensures
        r == all_alphanumeric(s@),
{
    let n: usize = s.unicode_len();
    let mut i: usize = 0;
    while i < n
        invariant
            i <= n == s@.len(),
            forall|k: int| 0 <= k < i ==> is_alphanumeric(#[trigger] s@[k]),
        decreases n - i,
    {
        let c: char = s.get_char(i);
        let good = ('0' <= c && c <= '9') || ('A' <= c && c <= 'Z') || ('a' <= c && c <= 'z');
        if !good {
            assert(!is_alphanumeric(s@[i as int]));
            return false;
        }
        i += 1;
    }
    true
}

/// An amateur radio callsign: one to eight letters and digits of ASCII.
#[derive(Debug)]
pub struct Callsign(String);

impl Clone for Callsign {
    fn clone(&self) -> (r: Self)
        ensures
            r == *self,
    {
        proof {
            use_type_invariant(self);
        }
        Callsign(self.0.clone())
    }
}

impl Callsign {
    #[verifier::type_invariant]
    spec fn inv(self) -> bool {
        0 < self.0@.len() <= MAX_CALLSIGN_LEN && all_alphanumeric(self.0@)
    }

    /// The text.
    pub closed spec fn text(self) -> Seq<char> {
        self.0@
    }

    pub fn new(s: String) -> (r: Result<Callsign, FieldError>)
        ensures
            match r {
                Ok(c) => 0 < s@.len() && encode_utf8(s@).len() <= MAX_CALLSIGN_LEN
                    && all_alphanumeric(s@) && c.text() == s@,
                Err(e) => if s@.len() == 0 {
                    e == FieldError::CallsignEmpty
                } else if encode_utf8(s@).len() > MAX_CALLSIGN_LEN {
                    e == FieldError::CallsignTooLong(encode_utf8(s@).len() as usize)
                } else {
                    !all_alphanumeric(s@) && e == FieldError::CallsignNotAlphanumeric
                },
            },
    {
        if s.as_str().is_empty() {
            return Err(FieldError::CallsignEmpty);
        }
        let n: usize = s.as_str().as_bytes().len();
        if n > MAX_CALLSIGN_LEN {
            return Err(FieldError::CallsignTooLong(n));
        }
        if !check_alphanumeric(s.as_str()) {
            return Err(FieldError::CallsignNotAlphanumeric);
        }
        proof {
            lemma_encode_ascii(s@);
        }
        Ok(Callsign(s))
    }

    pub fn as_str(&self) -> (r: &str)
        ensures
            r@ == self.text(),
            0 < r@.len() <= MAX_CALLSIGN_LEN,
            all_alphanumeric(r@),
    {
        proof {
            use_type_invariant(self);
        }
        self.0.as_str()
    }
}

// ---------------------------------------------------------------------------
// Validation
// ---------------------------------------------------------------------------

/// What is wrong with a configuration, if anything.  The two halves of the
/// neural backend are its encoder and its decoder.
pub open spec fn fault(
    keepalive_interval: u64,
    backend: VocoderBackend,
    neural: Option<(NeuralHalf, NeuralHalf)>,
) -> Option<ConfigError> {
    if keepalive_interval == 0 {
        Some(ConfigError::KeepaliveIntervalZero)
    } else if backend is Neural && (neural matches Some((encoder, decoder)) && encoder !is Neural
        && decoder !is Neural) {
        Some(ConfigError::NeuralBothNonNeural)
    } else {
        None
    }
}

/// Checks the rules that span fields.
pub fn validate(
    keepalive_interval: u64,
    backend: VocoderBackend,
    neural: Option<(NeuralHalf, NeuralHalf)>,
) -> (r: Result<(), ConfigError>)
    ensures
        match fault(keepalive_interval, backend, neural) {
            None => r is Ok,
            Some(e) => r == Err::<(), ConfigError>(e),
        },
{
    if keepalive_interval == 0 {
        return Err(ConfigError::KeepaliveIntervalZero);
    }
    if backend == VocoderBackend::Neural {
        if let Some((encoder, decoder)) = neural {
            if encoder != NeuralHalf::Neural && decoder != NeuralHalf::Neural {
                return Err(ConfigError::NeuralBothNonNeural);
            }
        }
    }
    Ok(())
}

/// The gains of the vocoder chip, in and out, in decibels.  None if neither is
/// configured; one that is not is zero.
pub fn config_gain(gain_in: Option<i8>, gain_out: Option<i8>) -> (r: Option<(i8, i8)>)
    ensures
        r is None <==> gain_in is None && gain_out is None,
        r matches Some((i, o)) ==> i == (match gain_in {
            Some(g) => g,
            None => 0i8,
        }) && o == (match gain_out {
            Some(g) => g,
            None => 0i8,
        }),
{
    match (gain_in, gain_out) {
        (None, None) => None,
        (Some(i), Some(o)) => Some((i, o)),
        (Some(i), None) => Some((i, 0)),
        (None, Some(o)) => Some((0, o)),
    }
}

impl GatewayMode {
    /// Whether voice from the network is decoded.
    pub fn receives(self) -> (r: bool)
        ensures
            r == (self !is FmToDmr),
    {
        self != GatewayMode::FmToDmr
    }

    /// Whether voice is sent to the network.
    pub fn transmits(self) -> (r: bool)
        ensures
            r == (self !is DmrToFm),
    {
        self != GatewayMode::DmrToFm
    }
}

// ---------------------------------------------------------------------------
// Secrets
// ---------------------------------------------------------------------------

/// The secret in a file: its text without white space at the ends.  None if
/// nothing is left; a file of several lines is refused.
pub fn parse_secret(raw: &str) -> (r: Result<Option<String>, Multiline>)
    ensures
        match r {
            Ok(None) => trimmed(raw@).len() == 0,
            Ok(Some(secret)) => secret@ == trimmed(raw@) && secret@.len() > 0
                && !secret@.contains('\n'),
            Err(_) => trimmed(raw@).contains('\n'),
        },
{
    let text = trim(raw);
    if text.is_empty() {
        assert(!text@.contains('\n'));
        return Ok(None);
    }
    if has_line_break(text) {
        return Err(Multiline);
    }
    Ok(Some(text.to_owned()))
}

/// A source supplies a secret: it is there and not empty.
pub open spec fn supplies(source: Option<&str>) -> bool {
    source is Some && source->0@.len() > 0
}

/// The places of those of the first `n` sources that supply a secret, in
/// order.
pub open spec fn suppliers(sources: Seq<Option<&str>>, n: int) -> Seq<int>
    decreases n,
{
    if n <= 0 {
        seq![]
    } else if supplies(sources[n - 1]) {
        suppliers(sources, n - 1).push(n - 1)
    } else {
        suppliers(sources, n - 1)
    }
}

/// The place of the one source that supplies a secret.
pub open spec fn is_only_supplier(sources: Seq<Option<&str>>, k: int) -> bool {
    &&& 0 <= k < sources.len()
    &&& supplies(sources[k])
    &&& forall|j: int|
        0 <= j < sources.len() && j != k ==> !supplies(#[trigger] sources[j])
}

proof fn lemma_suppliers(sources: Seq<Option<&str>>, n: int)
    requires
        0 <= n <= sources.len(),
    ensures
        forall|i: int|
            0 <= i < suppliers(sources, n).len() ==> 0 <= #[trigger] suppliers(sources, n)[i] < n
                && supplies(sources[suppliers(sources, n)[i]]),
        forall|k: int|
            0 <= k < n && supplies(#[trigger] sources[k]) ==> suppliers(sources, n).contains(k),
        forall|i: int, j: int|
            0 <= i < j < suppliers(sources, n).len() ==> #[trigger] suppliers(sources, n)[i]
                < #[trigger] suppliers(sources, n)[j],
    decreases n,
{
    if n > 0 {
        lemma_suppliers(sources, n - 1);
        let before = suppliers(sources, n - 1);
        let after = suppliers(sources, n);
        assert forall|k: int| 0 <= k < n && supplies(#[trigger] sources[k]) implies after.contains(
            k,
        ) by {
            if k < n - 1 {
                let i = choose|i: int| 0 <= i < before.len() && before[i] == k;
                assert(after[i] == k);
            } else {
                assert(after.last() == k);
            }
        }
    }
}

/// The places of the sources that supply a secret.
fn find_suppliers(sources: &[Option<&str>; SECRET_SOURCES]) -> (r: Vec<usize>)
    ensures
        r@.map_values(|k: usize| k as int) == suppliers(sources@, SECRET_SOURCES as int),
{
    let mut out: Vec<usize> = Vec::new();
    let mut i: usize = 0;
    assert(out@.map_values(|k: usize| k as int) =~= suppliers(sources@, 0));
    while i < SECRET_SOURCES
        invariant
            i <= SECRET_SOURCES,
            out@.map_values(|k: usize| k as int) == suppliers(sources@, i as int),
        decreases SECRET_SOURCES - i,
    {
        let good = match sources[i] {
            Some(secret) => !secret.is_empty(),
            None => false,
        };
        if good {
            let ghost before = out@;
            out.push(i);
            assert(out@.map_values(|k: usize| k as int) =~= before.map_values(
                |k: usize| k as int,
            ).push(i as int));
        }
        i += 1;
    }
    out
}

/// The name of a password source.
pub open spec fn password_source(k: int) -> Seq<char> {
    if k == 0 {
        "--password-file"@
    } else if k == 1 {
        "BRANDMEISTER_PASSWORD"@
    } else if k == 2 {
        "config.toml [network].password_file"@
    } else {
        "config.toml [network].password"@
    }
}

fn password_source_name(k: usize) -> (r: &'static str)
    ensures
        r@ == password_source(k as int),
{
    match k {
        0 => "--password-file",
        1 => "BRANDMEISTER_PASSWORD",
        2 => "config.toml [network].password_file",
        _ => "config.toml [network].password",
    }
}

/// Picks the source of the password: exactly one of the command line's file,
/// the environment, the configured file and the configured text has to supply
/// one.
pub fn resolve_password(sources: &[Option<&str>; SECRET_SOURCES]) -> (r: Result<usize, PasswordError>)
    ensures
        match r {
            Ok(k) => is_only_supplier(sources@, k as int),
            Err(PasswordError::Missing) => suppliers(sources@, SECRET_SOURCES as int).len() == 0,
            Err(PasswordError::Ambiguous(names)) => {
                let found = suppliers(sources@, SECRET_SOURCES as int);
                &&& found.len() > 1
                &&& names@.len() == found.len()
                &&& forall|i: int|
                    0 <= i < found.len() ==> (#[trigger] names@[i])@ == password_source(found[i])
            },
        },
{
    let found = find_suppliers(sources);
    let ghost places = suppliers(sources@, SECRET_SOURCES as int);
    proof {
        lemma_suppliers(sources@, SECRET_SOURCES as int);
        assert(places.len() == found@.len());
        assert forall|i: int| 0 <= i < found@.len() implies places[i] == #[trigger] found@[i] by {
            assert(found@.map_values(|k: usize| k as int)[i] == found@[i] as int);
        }
    }
    if found.len() == 0 {
        return Err(PasswordError::Missing);
    }
    if found.len() == 1 {
        let k: usize = found[0];
        assert(places[0] == k);
        assert forall|j: int| 0 <= j < sources@.len() && j != k implies !supplies(
            #[trigger] sources@[j],
        ) by {
            if supplies(sources@[j]) {
                assert(places.contains(j));
                assert(places[0] == j);
            }
        }
        return Ok(k);
    }
    let mut names: Vec<&'static str> = Vec::new();
    let mut i: usize = 0;
    while i < found.len()
        invariant
            i <= found@.len(),
            names@.len() == i,
            places.len() == found@.len(),
            forall|j: int| 0 <= j < found@.len() ==> places[j] == #[trigger] found@[j],
            forall|j: int| 0 <= j < i ==> (#[trigger] names@[j])@ == password_source(places[j]),
        decreases found@.len() - i,
    {
        names.push(password_source_name(found[i]));
        i += 1;
    }
    Err(PasswordError::Ambiguous(names))
}

/// Picks the source of the API key: at most one of the command line's file,
/// the environment, the configured file and the configured text may supply
/// one.  Without a section for the API no key is used.  A key has to be there
/// where talkgroups of a slot are to be provisioned.
pub fn resolve_api_key(
    section: bool,
    sources: &[Option<&str>; SECRET_SOURCES],
    statics_ts1: bool,
    statics_ts2: bool,
) -> (r: Result<Option<usize>, ApiKeyError>)
    ensures
        ({
            let found = suppliers(sources@, SECRET_SOURCES as int);
            match r {
                Ok(Some(k)) => section && is_only_supplier(sources@, k as int),
                Ok(None) => !section || (found.len() == 0 && !statics_ts1 && !statics_ts2),
                Err(ApiKeyError::Ambiguous) => section && found.len() > 1,
                Err(ApiKeyError::MissingForStatics { slot }) => section && found.len() == 0 && if statics_ts1 {
                    slot == 1
                } else {
                    statics_ts2 && slot == 2
                },
            }
        }),
{
    if !section {
        return Ok(None);
    }
    match resolve_password(sources) {
        Ok(k) => {
            Ok(Some(k))
        },
        Err(PasswordError::Missing) => {
            if statics_ts1 {
                Err(ApiKeyError::MissingForStatics { slot: 1 })
            } else if statics_ts2 {
                Err(ApiKeyError::MissingForStatics { slot: 2 })
            } else {
                Ok(None)
            }
        },
        Err(PasswordError::Ambiguous(_)) => Err(ApiKeyError::Ambiguous),
    }
}

/// Law: a password is picked if and only if exactly one source supplies one,
/// whatever the others hold, and then it is that source.
pub proof fn law_one_source(sources: Seq<Option<&str>>, k: int)
    requires
        sources.len() == SECRET_SOURCES,
        is_only_supplier(sources, k),
    ensures
        suppliers(sources, SECRET_SOURCES as int) == seq![k],
        forall|j: int| is_only_supplier(sources, j) ==> j == k,
{
    lemma_suppliers(sources, SECRET_SOURCES as int);
    let found = suppliers(sources, SECRET_SOURCES as int);
    assert(supplies(sources[k]));
    assert(found.contains(k));
    let i = choose|i: int| 0 <= i < found.len() && found[i] == k;
    assert forall|j: int| 0 <= j < found.len() implies found[j] == k by {
        assert(supplies(sources[found[j]]));
    }
    if found.len() > 1 {
        assert(found[0] < found[1]);
    }
    assert(found =~= seq![k]);
    assert forall|j: int| is_only_supplier(sources, j) implies j == k by {
        assert(supplies(sources[j]));
    }
}

/// Law: a configuration is at fault if it has no keepalive interval, or names
/// the neural backend and then neither direction for it; and only then.
pub proof fn law_fault(
    keepalive_interval: u64,
    backend: VocoderBackend,
    encoder: NeuralHalf,
    decoder: NeuralHalf,
)
    ensures
        fault(0, backend, None) == Some(ConfigError::KeepaliveIntervalZero),
        fault(0, backend, Some((encoder, decoder))) == Some(ConfigError::KeepaliveIntervalZero),
        keepalive_interval > 0 ==> fault(keepalive_interval, backend, None) is None,
        keepalive_interval > 0 && backend !is Neural ==> fault(
            keepalive_interval,
            backend,
            Some((encoder, decoder)),
        ) is None,
        keepalive_interval > 0 && backend is Neural ==> fault(
            keepalive_interval,
            backend,
            Some((encoder, decoder)),
        ) == if encoder is Neural || decoder is Neural {
            None::<ConfigError>
        } else {
            Some(ConfigError::NeuralBothNonNeural)
        },
{
}

/// Law: a callsign holds the digits and the letters of ASCII, and nothing
/// else; it has at most eight of them.  A frequency has at most nine digits.
pub proof fn law_field_limits(s: Seq<char>)
    ensures
        all_alphanumeric(s) <==> forall|i: int|
            0 <= i < s.len() ==> 0x30 <= #[trigger] s[i] as int <= 0x39 || 0x41 <= s[i] as int <= 0x5A
                || 0x61 <= s[i] as int <= 0x7A,
        MAX_CALLSIGN_LEN == 8,
        MAX_FREQ_HZ == 999_999_999,
        FREQ_DIGITS == 9,
        SECRET_SOURCES == 4,
{
    if all_alphanumeric(s) {
        assert forall|i: int| 0 <= i < s.len() implies 0x30 <= #[trigger] s[i] as int <= 0x39 || 0x41
            <= s[i] as int <= 0x5A || 0x61 <= s[i] as int <= 0x7A by {
            assert(is_alphanumeric(s[i]));
        }
    }
}

/// Law: the sources that supply a secret are those that are there and not
/// empty, each listed once and in order.  A source is the only one exactly if
/// it is so listed alone.
pub proof fn law_suppliers(sources: Seq<Option<&str>>, k: int)
    requires
        sources.len() == 4,
        0 <= k < 4,
    ensures
        suppliers(sources, 4).contains(k) <==> sources[k] is Some && sources[k]->0@.len() > 0,
        forall|i: int|
            0 <= i < suppliers(sources, 4).len() ==> 0 <= #[trigger] suppliers(sources, 4)[i] < 4,
        forall|i: int, j: int|
            0 <= i < j < suppliers(sources, 4).len() ==> #[trigger] suppliers(sources, 4)[i]
                < #[trigger] suppliers(sources, 4)[j],
        is_only_supplier(sources, k) <==> (forall|j: int|
            0 <= j < 4 ==> (j == k <==> (#[trigger] sources[j] is Some && sources[j]->0@.len() > 0))),
{
    lemma_suppliers(sources, 4);
    if suppliers(sources, 4).contains(k) {
        let i = choose|i: int|
            0 <= i < suppliers(sources, 4).len() && suppliers(sources, 4)[i] == k;
        assert(supplies(sources[suppliers(sources, 4)[i]]));
    }
    assert(supplies(sources[k]) == (sources[k] is Some && sources[k]->0@.len() > 0));
    if forall|j: int|
        0 <= j < 4 ==> (j == k <==> (#[trigger] sources[j] is Some && sources[j]->0@.len() > 0)) {
        assert forall|j: int| 0 <= j < sources.len() && j != k implies !supplies(
            #[trigger] sources[j],
        ) by {}
        assert(is_only_supplier(sources, k));
    }
    if is_only_supplier(sources, k) {
        assert forall|j: int| 0 <= j < 4 implies (j == k <==> (#[trigger] sources[j] is Some
            && sources[j]->0@.len() > 0)) by {
            if j != k {
                assert(!supplies(sources[j]));
            }
        }
    }
}

/// Law: the sources of the password are named in order: the option of the
/// command line, the variable of the environment, and the two keys of the
/// configuration, that of the file first.
pub proof fn law_password_sources()
    ensures
        password_source(0) == "--password-file"@,
        password_source(1) == "BRANDMEISTER_PASSWORD"@,
        password_source(2) == "config.toml [network].password_file"@,
        password_source(3) == "config.toml [network].password"@,
{
}

} // verus!
