//! Retries for gossiped peers whose first connection attempt failed
use crate::announce_address::AnnounceAddress;
use crate::connections::discovery::traversal::DiscoveryMethod;
use crate::errors::UiServerErrorWrapper;
use crate::peer_id::PeerId;
use crate::table::Table;
use crate::text;
use crate::text::{is_contained, lowercase_text, same_text};
use crate::ui_messages::UiServerError;
use rand::Rng;
use vstd::prelude::*;

verus! {

/// The delay before the first retry, in milliseconds.
pub const GOSSIP_RETRY_BASE_DELAY: u64 = 1000;

/// The longest delay before a retry, in milliseconds.
pub const GOSSIP_RETRY_MAX_DELAY: u64 = 300_000;

/// How many retries are scheduled for a peer in a row.
pub const GOSSIP_RETRY_MAX_ATTEMPTS: u32 = 10;

/// Calls `Rng::gen_range` of the thread's generator, which gives some number of a range that is
/// not empty.
#[verifier::external_body]
pub(crate) fn random_between(low: i64, high: i64) -> (r: i64)
    requires
        low <= high,
    ensures
        low <= r <= high,
{
    rand::thread_rng().gen_range(low..=high)
}

/// Whether a failure message of peer discovery says that another try is of no use.
pub open spec fn is_final_discovery_message(message: Seq<char>) -> bool {
    ||| message == "Cannot connect to ourself"@
    ||| message == "Already connected to this peer"@
    ||| message == "Symmetric to symmetric not yet supported"@
    ||| message == "We have asymmetric NAT but no local socket"@
}

/// Whether a failed connection, by its message, is worth another try: not where the peer's
/// certificate is at fault.
pub open spec fn is_retryable(error: UiServerError) -> bool {
    match error {
        UiServerError::PeerDiscovery(message) => !is_final_discovery_message(message@),
        UiServerError::ConnectionError(message) => {
            &&& !text::contains_text(text::lowercase(message@), "certificate"@)
            &&& !text::contains_text(text::lowercase(message@), "bad signature"@)
            &&& !text::contains_text(text::lowercase(message@), "invalidcertificate"@)
        },
        _ => false,
    }
}

/// Decide whether a gossip-triggered failure is worth retrying locally.
pub fn is_retryable_gossip_error(err: &UiServerErrorWrapper) -> (r: bool)
    ensures
        r == is_retryable(err.0),
{
    match &err.0 {
        UiServerError::PeerDiscovery(message) => {
            !(same_text(message.as_str(), "Cannot connect to ourself") || same_text(
                message.as_str(),
                "Already connected to this peer",
            ) || same_text(message.as_str(), "Symmetric to symmetric not yet supported")
                || same_text(message.as_str(), "We have asymmetric NAT but no local socket"))
        },
        UiServerError::ConnectionError(message) => {
            let lower = lowercase_text(message.as_str());
            is_retryable_connection_failure(lower.as_str())
        },
        _ => false,
    }
}

/// Decides by the message of a failed connection, in lower case.
pub fn is_retryable_connection_failure(lower: &str) -> (r: bool)
    ensures
        r == (!text::contains_text(lower@, "certificate"@) && !text::contains_text(lower@, "bad signature"@)
            && !text::contains_text(lower@, "invalidcertificate"@)),
{
    !is_contained(lower, "certificate") && !is_contained(lower, "bad signature") && !is_contained(
        lower,
        "invalidcertificate",
    )
}

/// The delay before a retry without jitter, in milliseconds: it doubles with every attempt up to a
/// limit.
pub open spec fn backoff(base: nat, limit: nat, attempt: nat) -> nat
    decreases attempt,
{
    if attempt <= 1 {
        if base <= limit {
            base
        } else {
            limit
        }
    } else {
        let doubled = 2 * backoff(base, limit, (attempt - 1) as nat);
        if doubled <= limit {
            doubled
        } else {
            limit
        }
    }
}

/// The delay never falls from one attempt to the next and never exceeds the limit.
pub proof fn law_backoff_grows_to_the_limit(base: nat, limit: nat, attempt: nat)
    ensures
        backoff(base, limit, attempt) <= backoff(base, limit, attempt + 1) <= limit,
    decreases attempt,
{
    if attempt > 1 {
        law_backoff_grows_to_the_limit(base, limit, (attempt - 1) as nat);
    }
}

/// Whether a delay is within a fifth of another.
pub open spec fn within_a_fifth(delay: int, of: int) -> bool {
    of - of / 5 <= delay <= of + of / 5
}

/// A delay that is made longer or shorter, but not negative.
pub fn shifted_delay(delay: u64, offset: i64) -> (r: u64)
    requires
        delay <= i64::MAX,
        delay + offset <= i64::MAX,
    ensures
        r == if delay + offset > 0 {
            delay + offset
        } else {
            0
        },
{
    let shifted: i64 = delay as i64 + offset;
    if shifted > 0 {
        shifted as u64
    } else {
        0
    }
}

/// Apply +/-20% jitter to a delay. By how much rests on chance.
pub fn jittered(delay: u64) -> (r: u64)
    requires
        delay <= 0x1000_0000_0000_0000,
    ensures
        within_a_fifth(r as int, delay as int),
{
    let jitter: i64 = (delay / 5) as i64;
    let offset: i64 = random_between(-jitter, jitter);
    shifted_delay(delay, offset)
}

/// The capped exponential backoff for an attempt, in milliseconds.
pub fn retry_delay(attempt: u32) -> (r: u64)
    ensures
        r == backoff(GOSSIP_RETRY_BASE_DELAY as nat, GOSSIP_RETRY_MAX_DELAY as nat, attempt as nat),
        r <= GOSSIP_RETRY_MAX_DELAY,
{
    let mut delay: u64 = GOSSIP_RETRY_BASE_DELAY;
    let mut n: u32 = 1;
    while n < attempt
        invariant
            1 <= n,
            n <= attempt || (attempt == 0 && n == 1),
            delay <= GOSSIP_RETRY_MAX_DELAY,
            delay == backoff(
                GOSSIP_RETRY_BASE_DELAY as nat,
                GOSSIP_RETRY_MAX_DELAY as nat,
                n as nat,
            ),
        decreases attempt - n,
    {
        delay = if 2 * delay <= GOSSIP_RETRY_MAX_DELAY {
            2 * delay
        } else {
            GOSSIP_RETRY_MAX_DELAY
        };
        n += 1;
    }
    delay
}

/// Calculate capped exponential backoff, then add a small jitter to avoid retry lockstep.
pub fn jittered_retry_delay(attempt: u32) -> (r: u64)
    ensures
        within_a_fifth(
            r as int,
            backoff(
                GOSSIP_RETRY_BASE_DELAY as nat,
                GOSSIP_RETRY_MAX_DELAY as nat,
                attempt as nat,
            ) as int,
        ),
{
    jittered(retry_delay(attempt))
}

/// In-memory retry metadata for a single gossiped peer.
#[derive(Clone, Copy, Debug)]
pub struct GossipRetryState {
    /// Latest announce details we should retry with.
    pub announce_address: AnnounceAddress,
    /// Number of retry attempts already scheduled for this peer.
    pub attempt: u32,
    /// Unique generation for the currently active retry chain.
    pub generation: u64,
    /// When the next retry becomes eligible to fire, in milliseconds of a clock that only goes
    /// forward.
    pub next_retry_at: u64,
}

/// A retry to fire after a delay.
#[derive(Clone, Copy, Debug)]
pub struct ScheduledRetry {
    pub peer: PeerId,
    /// In milliseconds.
    pub delay: u64,
    pub generation: u64,
}

/// Manages retry state for gossiped peers whose initial connection attempt failed.
pub struct GossipRetryManager {
    /// Per-peer retry state.
    state: Table<PeerId, GossipRetryState>,
    /// Token used to invalidate older scheduled retry tasks.
    generation: u64,
}

/// The retry state of all peers and the next token.
#[verifier::ext_equal]
pub struct RetryView {
    pub state: Map<PeerId, GossipRetryState>,
    pub generation: u64,
}

impl View for GossipRetryManager {
    type V = RetryView;

    closed spec fn view(&self) -> RetryView {
        RetryView { state: self.state@, generation: self.generation }
    }
}

impl RetryView {
    /// The number of the attempt that would be scheduled next for a peer.
    pub open spec fn next_attempt(self, peer: PeerId) -> nat {
        if self.state.dom().contains(peer) {
            if self.state[peer].attempt == u32::MAX {
                u32::MAX as nat
            } else {
                self.state[peer].attempt as nat + 1
            }
        } else {
            1
        }
    }

    /// Without any retry for a peer.
    pub open spec fn cleared(self, peer: PeerId) -> RetryView {
        RetryView { state: self.state.remove(peer), generation: self.generation }
    }

    /// The token after the current one.
    pub open spec fn next_generation(self) -> u64 {
        if self.generation == u64::MAX {
            0
        } else {
            (self.generation + 1) as u64
        }
    }

    /// After a failure to connect to a gossiped peer at a time, where `delay` is the delay for a
    /// retry.
    pub open spec fn after_failure(
        self,
        method: DiscoveryMethod,
        address: AnnounceAddress,
        error: UiServerError,
        connected: bool,
        now: u64,
        delay: u64,
    ) -> RetryView {
        let peer = address.public_key;
        if method != DiscoveryMethod::Gossip {
            self
        } else if !is_retryable(error) || connected {
            self.cleared(peer)
        } else if self.next_attempt(peer) > GOSSIP_RETRY_MAX_ATTEMPTS {
            RetryView { state: self.state.remove(peer), generation: self.next_generation() }
        } else {
            RetryView {
                state: self.state.insert(
                    peer,
                    GossipRetryState {
                        announce_address: address,
                        attempt: self.next_attempt(peer) as u32,
                        generation: self.generation,
                        next_retry_at: if now + delay > u64::MAX {
                            u64::MAX
                        } else {
                            (now + delay) as u64
                        },
                    },
                ),
                generation: self.next_generation(),
            }
        }
    }

    /// Whether a failure leads to a retry.
    pub open spec fn retries(
        self,
        method: DiscoveryMethod,
        address: AnnounceAddress,
        error: UiServerError,
        connected: bool,
    ) -> bool {
        &&& method == DiscoveryMethod::Gossip
        &&& is_retryable(error)
        &&& !connected
        &&& self.next_attempt(address.public_key) <= GOSSIP_RETRY_MAX_ATTEMPTS
    }

    /// What a retry that was scheduled under a token submits when it fires at a time.
    pub open spec fn fires(self, peer: PeerId, generation: u64, now: u64) -> Option<
        AnnounceAddress,
    > {
        if self.state.dom().contains(peer) && self.state[peer].generation == generation
            && self.state[peer].next_retry_at <= now {
            Some(self.state[peer].announce_address)
        } else {
            None
        }
    }

    /// No more attempts are on record for a peer than the budget allows.
    pub open spec fn within_budget(self) -> bool {
        forall|peer: PeerId| #[trigger]
            self.state.dom().contains(peer) ==> 1 <= self.state[peer].attempt
                <= GOSSIP_RETRY_MAX_ATTEMPTS
    }
}

impl GossipRetryManager {
    /// Create a retry manager without any retries.
    pub fn new() -> (r: GossipRetryManager)
        ensures
            r@.state == Map::<PeerId, GossipRetryState>::empty(),
            r@.generation == 1,
            r@.within_budget(),
    {
        GossipRetryManager { state: Table::new(), generation: 1 }
    }

    /// Schedule a retry for a gossiped peer if the failure is transient and budget remains, to
    /// fire after the delay that is given.
    pub fn schedule_retry_after(
        &mut self,
        discovery_method: DiscoveryMethod,
        announce_address: AnnounceAddress,
        err: &UiServerErrorWrapper,
        connected: bool,
        now: u64,
        delay: u64,
    ) -> (r: Option<ScheduledRetry>)
        ensures
            old(self)@.within_budget() ==> final(self)@.within_budget(),
            final(self)@ == old(self)@.after_failure(
                discovery_method,
                announce_address,
                err.0,
                connected,
                now,
                delay,
            ),
            r == if old(self)@.retries(discovery_method, announce_address, err.0, connected) {
                Some(
                    ScheduledRetry {
                        peer: announce_address.public_key,
                        delay,
                        generation: old(self)@.generation,
                    },
                )
            } else {
                None
            },
    {
        if discovery_method != DiscoveryMethod::Gossip {
            return None;
        }
        let peer = announce_address.public_key;
        if !is_retryable_gossip_error(err) || connected {
            self.clear_retry(&peer);
            return None;
        }
        // Every reschedule gets a new generation so that any retry that is already on its way
        // becomes a no-op when it fires.
        let generation: u64 = self.generation;
        self.generation = generation.wrapping_add(1);
        let attempt = self.upcoming_attempt(&peer);
        if attempt > GOSSIP_RETRY_MAX_ATTEMPTS {
            self.state.remove(&peer);
            return None;
        }
        let next_retry_at: u64 = now.saturating_add(delay);
        self.state.insert(
            peer,
            GossipRetryState { announce_address, attempt, generation, next_retry_at },
        );
        Some(ScheduledRetry { peer, delay, generation })
    }

    /// The number of the attempt that would be scheduled next for a peer.
    fn upcoming_attempt(&self, peer: &PeerId) -> (r: u32)
        ensures
            r == self@.next_attempt(*peer),
    {
        match self.state.get(peer) {
            Some(existing) => existing.attempt.saturating_add(1),
            None => 1,
        }
    }

    /// Schedule a retry for a gossiped peer if the failure is transient and budget remains.
    pub fn schedule_retry_if_needed(
        &mut self,
        discovery_method: DiscoveryMethod,
        announce_address: AnnounceAddress,
        err: &UiServerErrorWrapper,
        connected: bool,
        now: u64,
    ) -> (r: Option<ScheduledRetry>)
        ensures
            old(self)@.within_budget() ==> final(self)@.within_budget(),
            r is Some <==> old(self)@.retries(discovery_method, announce_address, err.0, connected),
            exists|delay: u64|
                within_a_fifth(
                    delay as int,
                    backoff(
                        GOSSIP_RETRY_BASE_DELAY as nat,
                        GOSSIP_RETRY_MAX_DELAY as nat,
                        old(self)@.next_attempt(announce_address.public_key),
                    ) as int,
                ) && final(self)@ == (#[trigger] old(self)@.after_failure(
                    discovery_method,
                    announce_address,
                    err.0,
                    connected,
                    now,
                    delay,
                )) && (r matches Some(retry) ==> retry == (ScheduledRetry {
                    peer: announce_address.public_key,
                    delay,
                    generation: old(self)@.generation,
                })),
    {
        let attempt = self.upcoming_attempt(&announce_address.public_key);
        let delay = jittered_retry_delay(attempt);
        self.schedule_retry_after(discovery_method, announce_address, err, connected, now, delay)
    }

    /// Re-submit a retry only if the stored generation is still the latest for that peer.
    pub fn fire_retry(&mut self, peer: &PeerId, generation: u64, connected: bool, now: u64) -> (r:
        Option<AnnounceAddress>)
        ensures
            connected ==> r is None && final(self)@ == old(self)@.cleared(*peer),
            !connected ==> r == old(self)@.fires(*peer, generation, now) && final(self)@ == old(
                self,
            )@,
    {
        if connected {
            self.clear_retry(peer);
            return None;
        }
        match self.state.get(peer) {
            // Ignore stale retries after a refresh/cancel, and only fire once the recorded
            // retry deadline has passed.
            Some(retry_state) => {
                if retry_state.generation == generation && retry_state.next_retry_at <= now {
                    Some(retry_state.announce_address)
                } else {
                    None
                }
            },
            None => None,
        }
    }

    /// Remove any queued retry state for a peer.
    pub fn clear_retry(&mut self, peer: &PeerId)
        ensures
            final(self)@ == old(self)@.cleared(*peer),
    {
        self.state.remove(peer);
    }
}

/// A retry submits the latest announced details: after two failures in a row, the retry of the
/// first one submits nothing whenever it fires, and that of the second one submits the details
/// that were announced last.
pub proof fn law_retry_uses_latest_details(
    view: RetryView,
    first: AnnounceAddress,
    second: AnnounceAddress,
    error1: UiServerError,
    error2: UiServerError,
    now1: u64,
    delay1: u64,
    now2: u64,
    delay2: u64,
    fired: u64,
)
    requires
        first.public_key == second.public_key,
        view.retries(DiscoveryMethod::Gossip, first, error1, false),
        view.after_failure(
            DiscoveryMethod::Gossip,
            first,
            error1,
            false,
            now1,
            delay1,
        ).retries(DiscoveryMethod::Gossip, second, error2, false),
        now2 + delay2 <= fired,
    ensures
        ({
            let after1 = view.after_failure(
                DiscoveryMethod::Gossip,
                first,
                error1,
                false,
                now1,
                delay1,
            );
            let after2 = after1.after_failure(
                DiscoveryMethod::Gossip,
                second,
                error2,
                false,
                now2,
                delay2,
            );
            &&& after2.fires(second.public_key, view.generation, fired) is None
            &&& after2.fires(second.public_key, after1.generation, fired) == Some(second)
        }),
{
}

/// A retry that was cleared submits nothing, whenever it fires.
pub proof fn law_cleared_retry_submits_nothing(
    view: RetryView,
    peer: PeerId,
    generation: u64,
    now: u64,
)
    ensures
        view.cleared(peer).fires(peer, generation, now) is None,
{
}

/// A failure never leaves more attempts on record for a peer than the budget allows.
pub proof fn law_retry_budget(
    view: RetryView,
    method: DiscoveryMethod,
    address: AnnounceAddress,
    error: UiServerError,
    connected: bool,
    now: u64,
    delay: u64,
)
    requires
        view.within_budget(),
    ensures
        view.after_failure(method, address, error, connected, now, delay).within_budget(),
{
}

/// The delay before a retry is the first one, doubled for each attempt after the first, and never
/// more than the limit.
pub proof fn law_backoff_doubles(base: nat, limit: nat, attempt: nat)
    requires
        attempt >= 1,
    ensures
        ({
            let doubled = base * vstd::arithmetic::power2::pow2((attempt - 1) as nat);
            backoff(base, limit, attempt) == if doubled <= limit {
                doubled
            } else {
                limit
            }
        }),
    decreases attempt,
{
    vstd::arithmetic::power2::lemma2_to64();
    if attempt == 1 {
        assert(base * 1 == base) by (nonlinear_arith);
    } else {
        let before = (attempt - 1) as nat;
        law_backoff_doubles(base, limit, before);
        let p = vstd::arithmetic::power2::pow2((before - 1) as nat);
        let q = vstd::arithmetic::power2::pow2(before);
        vstd::arithmetic::power2::lemma_pow2_unfold(before);
        assert(base * q == 2 * (base * p)) by (nonlinear_arith)
            requires
                q == 2 * p,
        ;
    }
}

/// A delay with jitter differs from the delay by a fifth of it at most.
pub proof fn law_jitter_is_a_fifth(jittered: int, delay: int)
    requires
        0 <= delay,
    ensures
        within_a_fifth(jittered, delay) == (5 * (jittered - delay) <= delay && 5 * (delay - jittered)
            <= delay),
{
}

/// A failed connection is not tried again where the certificate or its signature is at fault,
/// wherever and however the message says so. Other failed connections are.
pub proof fn law_certificate_faults_are_final(
    message: String,
    before: Seq<char>,
    behind: Seq<char>,
)
    ensures
        text::lowercase(message@) == before + "certificate"@ + behind ==> !is_retryable(
            UiServerError::ConnectionError(message),
        ),
        text::lowercase(message@) == before + "bad signature"@ + behind ==> !is_retryable(
            UiServerError::ConnectionError(message),
        ),
        !is_retryable(UiServerError::ConnectionError(message)) ==> {
            ||| exists|a: Seq<char>, b: Seq<char>|
                text::lowercase(message@) == #[trigger] (a + "certificate"@ + b)
            ||| exists|a: Seq<char>, b: Seq<char>|
                text::lowercase(message@) == #[trigger] (a + "bad signature"@ + b)
        },
{
    let lower = text::lowercase(message@);
    if lower == before + "certificate"@ + behind {
        lemma_found(before, "certificate"@, behind);
    }
    if lower == before + "bad signature"@ + behind {
        lemma_found(before, "bad signature"@, behind);
    }
    if !is_retryable(UiServerError::ConnectionError(message)) {
        if text::contains_text(lower, "certificate"@) {
            let at = choose|at: int| text::found_at(lower, "certificate"@, at);
            lemma_parted(lower, "certificate"@, at);
        } else if text::contains_text(lower, "bad signature"@) {
            let at = choose|at: int| text::found_at(lower, "bad signature"@, at);
            lemma_parted(lower, "bad signature"@, at);
        } else {
            let at = choose|at: int| text::found_at(lower, "invalidcertificate"@, at);
            lemma_invalid_certificate(lower, at);
        }
    }
}

proof fn lemma_invalid_certificate(text: Seq<char>, at: int)
    requires
        text::found_at(text, "invalidcertificate"@, at),
    ensures
        text::contains_text(text, "certificate"@),
{
    reveal_strlit("invalidcertificate");
    reveal_strlit("certificate");
    let long = text.subrange(at, at + 18);
    assert(long == "invalidcertificate"@);
    assert(long.subrange(7, 18) =~= "certificate"@);
    assert(text.subrange(at + 7, at + 18) =~= long.subrange(7, 18));
    assert(text::found_at(text, "certificate"@, at + 7));
}

proof fn lemma_found(before: Seq<char>, needle: Seq<char>, behind: Seq<char>)
    ensures
        text::contains_text(before + needle + behind, needle),
{
    let whole = before + needle + behind;
    let at = before.len() as int;
    assert(whole.subrange(at, at + needle.len()) =~= needle);
    assert(text::found_at(whole, needle, at));
}

proof fn lemma_parted(whole: Seq<char>, needle: Seq<char>, at: int)
    requires
        text::found_at(whole, needle, at),
    ensures
        exists|a: Seq<char>, b: Seq<char>| whole == #[trigger] (a + needle + b),
{
    let a = whole.take(at);
    let b = whole.skip(at + needle.len());
    assert(whole =~= a + needle + b);
}

/// A retry is due after its delay and not before, and submits the peer that failed. Each one counts
/// as one attempt, after the last of which there is no more. What is scheduled for other peers is as
/// it was.
pub proof fn law_retry_is_due_after_its_delay(
    view: RetryView,
    address: AnnounceAddress,
    error: UiServerError,
    now: u64,
    delay: u64,
    fired: u64,
    other: PeerId,
)
    requires
        is_retryable(error),
        now + delay <= u64::MAX,
        other != address.public_key,
    ensures
        ({
            let peer = address.public_key;
            let after = view.after_failure(
                DiscoveryMethod::Gossip,
                address,
                error,
                false,
                now,
                delay,
            );
            let attempts: nat = if view.state.dom().contains(peer) {
                view.state[peer].attempt as nat
            } else {
                0
            };
            &&& view.retries(DiscoveryMethod::Gossip, address, error, false) == (attempts
                < GOSSIP_RETRY_MAX_ATTEMPTS)
            &&& attempts < GOSSIP_RETRY_MAX_ATTEMPTS ==> {
                &&& after.state[peer].attempt == attempts + 1
                &&& after.fires(peer, view.generation, fired) == if fired >= now + delay {
                    Some(address)
                } else {
                    None
                }
            }
            &&& attempts >= GOSSIP_RETRY_MAX_ATTEMPTS ==> !after.state.dom().contains(peer)
            &&& after.state.dom().contains(other) == view.state.dom().contains(other)
            &&& view.state.dom().contains(other) ==> after.state[other] == view.state[other]
            &&& after.generation != view.generation
        }),
{
}

/// Only gossiped peers are retried, not those that are connected by then, and not after a failure
/// for good. What was scheduled for such a peer is dropped.
pub proof fn law_what_is_not_retried(
    view: RetryView,
    method: DiscoveryMethod,
    address: AnnounceAddress,
    error: UiServerError,
    connected: bool,
    now: u64,
    delay: u64,
    generation: u64,
    fired: u64,
)
    requires
        method != DiscoveryMethod::Gossip || connected || !is_retryable(error),
    ensures
        !view.retries(method, address, error, connected),
        method != DiscoveryMethod::Gossip ==> view.after_failure(
            method,
            address,
            error,
            connected,
            now,
            delay,
        ) == view,
        method == DiscoveryMethod::Gossip ==> view.after_failure(
            method,
            address,
            error,
            connected,
            now,
            delay,
        ).fires(address.public_key, generation, fired) is None,
{
}

/// Attempts are counted one by one from the first.
pub proof fn law_attempts_are_counted(retries: RetryView, peer: PeerId)
    requires
        retries.within_budget(),
    ensures
        !retries.state.dom().contains(peer) ==> retries.next_attempt(peer) == 1,
        retries.state.dom().contains(peer) ==> retries.next_attempt(peer)
            == retries.state[peer].attempt + 1,
{
}

} // verus!
