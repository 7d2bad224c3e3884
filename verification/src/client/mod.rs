//! The server API client: its bodies, errors, authentication and retry policy.
//!
//! The HTTP exchange itself (the connection pool, sending a request, reading its body)
//! is done by the caller; what is decided here is which URL a call goes to, which
//! `Authorization` header it carries, whether the circuit breaker lets it through, what
//! happens after a failed send, and which error a failed response becomes.
pub mod types;

use vstd::prelude::*;
use std::time::Duration;
use crate::text::{concat_str, owned};
use crate::http_error::{HttpErrorResponse, code_name};
use crate::metadata::opt_view;

verus! {

/// Number of retries for transient network failures.
pub const DEFAULT_MAX_RETRIES: u32 = 3;

/// Backoff before the first retry, in milliseconds; it doubles with each attempt.
pub const DEFAULT_INITIAL_BACKOFF_MS: u64 = 100;

/// The circuit breaker opens after this many consecutive failures.
pub const DEFAULT_CIRCUIT_FAILURE_THRESHOLD: u32 = 5;

/// How long an open circuit stays open before one request may try again (seconds).
pub const DEFAULT_CIRCUIT_OPEN_DURATION_SECS: u64 = 30;

/// Errors returned by the client.
#[derive(Debug, Clone)]
pub enum Error {
    /// The request could not be sent or its answer could not be read.
    Http { message: String },
    /// The server answered with an error.
    Api { code: String, message: String, detail: Option<String> },
    /// The circuit breaker is open.
    CircuitOpen,
    NotAuthenticated,
    Internal { message: String },
}

impl Error {
    /// What `Display` shows.
    pub open spec fn display_text(&self) -> Seq<char> {
        match self {
            Error::Http { message } => "HTTP error: "@ + message@,
            Error::Api { code, message, detail } => {
                let head = "API error ("@ + code@ + "): "@ + message@;
                match detail {
                    Some(d) => head + " ("@ + d@ + ")"@,
                    None => head,
                }
            },
            Error::CircuitOpen => "Circuit breaker open: backend unavailable until cooldown elapses"@,
            Error::NotAuthenticated => "Not authenticated"@,
            Error::Internal { message } => "Internal client error: "@ + message@,
        }
    }

    /// The text of the error.
    pub fn to_display_string(&self) -> (r: String)
        ensures
            r@ == self.display_text(),
    {
        match self {
            Error::Http { message } => concat_str("HTTP error: ", message.as_str()),
            Error::Api { code, message, detail } => {
                let mut out = concat_str("API error (", code.as_str());
                out.append("): ");
                out.append(message.as_str());
                match detail {
                    Some(d) => {
                        out.append(" (");
                        out.append(d.as_str());
                        out.append(")");
                    },
                    None => {},
                }
                out
            },
            Error::CircuitOpen => owned(
                "Circuit breaker open: backend unavailable until cooldown elapses",
            ),
            Error::NotAuthenticated => owned("Not authenticated"),
            Error::Internal { message } => concat_str("Internal client error: ", message.as_str()),
        }
    }
}

/// Auth state for the client (token storage).
#[derive(Clone, Default)]
pub struct AuthState {
    pub token: Option<String>,
}

/// `2^n`.
pub open spec fn pow2(n: nat) -> nat
    decreases n,
{
    if n == 0 {
        1
    } else {
        2 * pow2((n - 1) as nat)
    }
}

/// What follows a failed send.
#[derive(Debug, Clone)]
pub enum RetryStep {
    /// Wait this many milliseconds, then send again.
    Retry { backoff_ms: u64 },
    /// Give up with this error.
    Fail(Error),
}

/// Connection pool options for the client.
pub struct ClientBuilder {
    pool_max_idle_per_host: Option<usize>,
    pool_idle_timeout: Option<Duration>,
}

impl ClientBuilder {
    /// The maximum number of idle connections per host, when set.
    pub closed spec fn max_idle(self) -> Option<usize> {
        self.pool_max_idle_per_host
    }

    /// How long an idle connection is kept, when set.
    pub closed spec fn idle_timeout(self) -> Option<Duration> {
        self.pool_idle_timeout
    }

    /// A builder with default options.
    pub fn new() -> (r: Self)
        ensures
            r.max_idle() is None,
            r.idle_timeout() is None,
    {
        ClientBuilder { pool_max_idle_per_host: None, pool_idle_timeout: None }
    }

    /// Set the maximum number of idle connections per host to keep in the pool.
    pub fn pool_max_idle_per_host(self, n: usize) -> (r: Self)
        ensures
            r.max_idle() == Some(n),
            r.idle_timeout() == self.idle_timeout(),
    {
        ClientBuilder { pool_max_idle_per_host: Some(n), pool_idle_timeout: self.pool_idle_timeout }
    }

    /// Set how long an idle connection is kept in the pool before being closed.
    pub fn pool_idle_timeout(self, timeout: Duration) -> (r: Self)
        ensures
            r.max_idle() == self.max_idle(),
            r.idle_timeout() == Some(timeout),
    {
        ClientBuilder { pool_max_idle_per_host: self.pool_max_idle_per_host, pool_idle_timeout: Some(timeout) }
    }

    /// The client for the server at `base_url`, with these pool options.
    pub fn build(self, base_url: &str) -> (r: Client)
        ensures
            r.base() == base_url@,
            r.token_view() is None,
            r.failures() == 0,
            r.open_until() is None,
            r.max_idle() == self.max_idle(),
            r.idle_timeout() == self.idle_timeout(),
    {
        Client {
            base_url: owned(base_url),
            auth: AuthState { token: None },
            failure_count: 0,
            open_until_ms: None,
            pool_max_idle_per_host: self.pool_max_idle_per_host,
            pool_idle_timeout: self.pool_idle_timeout,
        }
    }
}

impl Default for ClientBuilder {
    fn default() -> (r: Self)
        ensures
            r.max_idle() is None,
            r.idle_timeout() is None,
    {
        ClientBuilder::new()
    }
}

/// The state of a client of the server REST API: where the server is, the token it
/// authenticates with, and its circuit breaker. Times are milliseconds on a monotonic
/// clock that the caller reads.
pub struct Client {
    base_url: String,
    auth: AuthState,
    failure_count: u32,
    open_until_ms: Option<u64>,
    pool_max_idle_per_host: Option<usize>,
    pool_idle_timeout: Option<Duration>,
}

/// How long an open circuit stays open, in milliseconds.
pub open spec fn open_ms() -> int {
    DEFAULT_CIRCUIT_OPEN_DURATION_SECS * 1000
}

/// Until when the circuit is open after one more failure at `now`, counted on top of
/// `failures` earlier ones: it opens (again) for the open duration once the count
/// reaches the threshold, and is otherwise left as it was.
pub open spec fn open_after_failure(failures: u32, open: Option<u64>, now: u64) -> Option<u64> {
    if failures + 1 >= DEFAULT_CIRCUIT_FAILURE_THRESHOLD {
        Some((now + open_ms()) as u64)
    } else {
        open
    }
}

/// Whether a circuit open until `open` lets a request through at `now`.
pub open spec fn circuit_admits(open: Option<u64>, now: u64) -> bool {
    match open {
        Some(t) => now >= t,
        None => true,
    }
}

/// The circuit after `k` consecutive failures at `now`, starting closed with no failures:
/// (failures counted, until when it is open).
pub open spec fn after_failures(k: nat, now: u64) -> (u32, Option<u64>)
    decreases k,
{
    if k == 0 {
        (0u32, None)
    } else {
        let (f, open) = after_failures((k - 1) as nat, now);
        ((f + 1) as u32, open_after_failure(f, open, now))
    }
}

/// The circuit breaker: starting closed, fewer consecutive failures than the threshold
/// leave it closed; the failure that reaches the threshold at `now` opens it, and it then
/// refuses every request before `now` plus the open duration and admits them from then
/// on.
pub proof fn lemma_circuit_breaker(now: u64, later: u64)
    requires
        now + open_ms() <= u64::MAX,
    ensures
        forall|k: nat| k < DEFAULT_CIRCUIT_FAILURE_THRESHOLD ==> (#[trigger] after_failures(k, now)).1 is None,
        after_failures(DEFAULT_CIRCUIT_FAILURE_THRESHOLD as nat, now).1 == Some((now + open_ms()) as u64),
        circuit_admits(after_failures(DEFAULT_CIRCUIT_FAILURE_THRESHOLD as nat, now).1, later) <==> later
            >= now + open_ms(),
{
    reveal_with_fuel(after_failures, 6);
    assert forall|k: nat| k < DEFAULT_CIRCUIT_FAILURE_THRESHOLD implies (#[trigger] after_failures(k, now)).1 is None by {
        reveal_with_fuel(after_failures, 6);
        assert(after_failures(0, now).1 is None);
        assert(after_failures(1, now) == (1u32, None::<u64>));
        assert(after_failures(2, now) == (2u32, None::<u64>));
        assert(after_failures(3, now) == (3u32, None::<u64>));
        assert(after_failures(4, now) == (4u32, None::<u64>));
    }
    assert(after_failures(4, now) == (4u32, None::<u64>));
}

/// The circuit after consecutive failures at the given times (in the order they came),
/// starting closed with no failures: (failures counted, until when it is open). A check
/// of a circuit that is not open changes nothing, so checks between the failures leave
/// this unchanged.
pub open spec fn after_failures_at(times: Seq<u64>) -> (u32, Option<u64>)
    decreases times.len(),
{
    if times.len() == 0 {
        (0u32, None)
    } else {
        let (f, open) = after_failures_at(times.drop_last());
        ((f + 1) as u32, open_after_failure(f, open, times.last()))
    }
}

proof fn lemma_few_failures_closed(times: Seq<u64>)
    requires
        times.len() < DEFAULT_CIRCUIT_FAILURE_THRESHOLD,
    ensures
        after_failures_at(times) == (times.len() as u32, None::<u64>),
    decreases times.len(),
{
    if times.len() > 0 {
        lemma_few_failures_closed(times.drop_last());
    }
}

/// The circuit breaker over time: starting closed, fewer consecutive failures than the
/// threshold leave it closed whenever they came; the failure that reaches the threshold,
/// at time `t`, opens it, and it then refuses every request before `t` plus the open
/// duration and admits them from then on.
pub proof fn lemma_circuit_breaker_over_time(times: Seq<u64>, now: u64)
    requires
        times.len() <= DEFAULT_CIRCUIT_FAILURE_THRESHOLD,
        times.len() == DEFAULT_CIRCUIT_FAILURE_THRESHOLD ==> times.last() + open_ms() <= u64::MAX,
    ensures
        times.len() < DEFAULT_CIRCUIT_FAILURE_THRESHOLD ==> after_failures_at(times).1 is None,
        times.len() == DEFAULT_CIRCUIT_FAILURE_THRESHOLD ==> after_failures_at(times).1 == Some((times.last() + open_ms()) as u64)
            && (circuit_admits(after_failures_at(times).1, now) <==> now >= times.last() + open_ms()),
{
    if times.len() < DEFAULT_CIRCUIT_FAILURE_THRESHOLD {
        lemma_few_failures_closed(times);
    } else {
        lemma_few_failures_closed(times.drop_last());
    }
}

/// `base + "/api/v1/" + route`.
pub open spec fn api_url_spec(base: Seq<char>, route: Seq<char>) -> Seq<char> {
    base + "/api/v1/"@ + route
}

impl Client {
    /// The server's base URL.
    pub closed spec fn base(self) -> Seq<char> {
        self.base_url@
    }

    /// The token, when one is set.
    pub closed spec fn token_view(self) -> Option<Seq<char>> {
        opt_view(self.auth.token)
    }

    /// Consecutive failures counted by the circuit breaker.
    pub closed spec fn failures(self) -> u32 {
        self.failure_count
    }

    /// Until when the circuit is open, if it is.
    pub closed spec fn open_until(self) -> Option<u64> {
        self.open_until_ms
    }

    /// The pool's maximum number of idle connections per host, when set.
    pub closed spec fn max_idle(self) -> Option<usize> {
        self.pool_max_idle_per_host
    }

    /// The pool's idle timeout, when set.
    pub closed spec fn idle_timeout(self) -> Option<Duration> {
        self.pool_idle_timeout
    }

    /// A client with default pool settings.
    pub fn new(base_url: &str) -> (r: Self)
        ensures
            r.base() == base_url@,
            r.token_view() is None,
            r.failures() == 0,
            r.open_until() is None,
            r.max_idle() is None,
            r.idle_timeout() is None,
    {
        ClientBuilder::new().build(base_url)
    }

    /// A builder to configure connection pool options.
    pub fn builder() -> (r: ClientBuilder)
        ensures
            r.max_idle() is None,
            r.idle_timeout() is None,
    {
        ClientBuilder::new()
    }

    /// Consecutive failures counted by the circuit breaker.
    pub fn failure_count(&self) -> (r: u32)
        ensures
            r == self.failures(),
    {
        self.failure_count
    }

    /// The server's base URL, as given.
    pub fn base_url(&self) -> (r: &str)
        ensures
            r@ == self.base(),
    {
        self.base_url.as_str()
    }

    /// The pool's maximum number of idle connections per host, when set.
    pub fn pool_max_idle_per_host(&self) -> (r: Option<usize>)
        ensures
            r == self.max_idle(),
    {
        self.pool_max_idle_per_host
    }

    /// The pool's idle timeout, when set.
    pub fn pool_idle_timeout(&self) -> (r: Option<Duration>)
        ensures
            r == self.idle_timeout(),
    {
        self.pool_idle_timeout
    }

    /// Set the authentication token.
    pub fn set_token(&mut self, token: &str)
        ensures
            final(self).token_view() == Some(token@),
            final(self).base() == old(self).base(),
            final(self).failures() == old(self).failures(),
            final(self).open_until() == old(self).open_until(),
    {
        self.auth.token = Some(owned(token));
    }

    /// The authentication token, when one is set.
    pub fn token(&self) -> (r: Option<String>)
        ensures
            opt_view(r) == self.token_view(),
    {
        match &self.auth.token {
            Some(t) => Some(t.clone()),
            None => None,
        }
    }

    /// Whether a token is set.
    pub fn is_authenticated(&self) -> (r: bool)
        ensures
            r == self.token_view() is Some,
    {
        self.auth.token.is_some()
    }

    /// Clear the authentication token.
    pub fn logout(&mut self)
        ensures
            final(self).token_view() is None,
            final(self).base() == old(self).base(),
            final(self).failures() == old(self).failures(),
            final(self).open_until() == old(self).open_until(),
    {
        self.auth.token = None;
    }

    /// The URL of an API route (`route` without a leading slash, e.g. `files`).
    pub fn api_url(&self, route: &str) -> (r: String)
        ensures
            r@ == api_url_spec(self.base(), route@),
    {
        let mut out = concat_str(self.base_url.as_str(), "/api/v1/");
        out.append(route);
        out
    }

    /// The `Authorization` header value that requests carry: `Bearer <token>` when a
    /// token is set, none otherwise.
    pub fn authorization(&self) -> (r: Option<String>)
        ensures
            match self.token_view() {
                Some(t) => opt_view(r) == Some("Bearer "@ + t),
                None => r is None,
            },
    {
        match &self.auth.token {
            Some(t) => Some(concat_str("Bearer ", t.as_str())),
            None => None,
        }
    }

    /// Whether a request may be sent at time `now_ms`. While the circuit is open it
    /// fails fast with `CircuitOpen`; once the cooldown has elapsed the circuit
    /// half-opens (the failure count is reset) and the request goes through.
    pub fn check_circuit(&mut self, now_ms: u64) -> (r: Result<(), Error>)
        ensures
            final(self).base() == old(self).base(),
            final(self).token_view() == old(self).token_view(),
            r is Ok <==> circuit_admits(old(self).open_until(), now_ms),
            match old(self).open_until() {
                Some(t) => if now_ms < t {
                    &&& r matches Err(Error::CircuitOpen)
                    &&& final(self).failures() == old(self).failures()
                    &&& final(self).open_until() == old(self).open_until()
                } else {
                    &&& r is Ok
                    &&& final(self).failures() == 0
                    &&& final(self).open_until() is None
                },
                None => {
                    &&& r is Ok
                    &&& final(self).failures() == old(self).failures()
                    &&& final(self).open_until() is None
                },
            },
    {
        match self.open_until_ms {
            Some(t) => {
                if now_ms < t {
                    return Err(Error::CircuitOpen);
                }
                self.open_until_ms = None;
                self.failure_count = 0;
                Ok(())
            },
            None => Ok(()),
        }
    }

    /// A request went through: the failure count is reset.
    pub fn record_success(&mut self)
        ensures
            final(self).failures() == 0,
            final(self).open_until() == old(self).open_until(),
            final(self).base() == old(self).base(),
            final(self).token_view() == old(self).token_view(),
    {
        self.failure_count = 0;
    }

    /// A request failed at time `now_ms`: one more failure is counted, and when the
    /// count reaches the threshold the circuit opens for the open duration.
    pub fn record_circuit_failure(&mut self, now_ms: u64)
        requires
            old(self).failures() < u32::MAX,
            old(self).failures() + 1 >= DEFAULT_CIRCUIT_FAILURE_THRESHOLD ==> now_ms
                + DEFAULT_CIRCUIT_OPEN_DURATION_SECS * 1000 <= u64::MAX,
        ensures
            final(self).failures() == old(self).failures() + 1,
            final(self).open_until() == open_after_failure(old(self).failures(), old(self).open_until(), now_ms),
            final(self).base() == old(self).base(),
            final(self).token_view() == old(self).token_view(),
    {
        self.failure_count = self.failure_count + 1;
        if self.failure_count >= DEFAULT_CIRCUIT_FAILURE_THRESHOLD {
            self.open_until_ms = Some(now_ms + DEFAULT_CIRCUIT_OPEN_DURATION_SECS * 1000);
        }
    }

    /// What follows a send that failed on attempt `attempt` (counting from 0) at time
    /// `now_ms`: a transient failure (a connection error or a timeout) with retries
    /// left is retried after `100 * 2^attempt` ms; any other failure is counted by the
    /// circuit breaker and ends the call with an HTTP error carrying `message`.
    pub fn after_send_failure(&mut self, attempt: u32, transient: bool, message: String, now_ms: u64) -> (r: RetryStep)
        requires
            attempt <= DEFAULT_MAX_RETRIES,
            !(transient && attempt < DEFAULT_MAX_RETRIES) ==> old(self).failures() < u32::MAX,
            !(transient && attempt < DEFAULT_MAX_RETRIES) && old(self).failures() + 1
                >= DEFAULT_CIRCUIT_FAILURE_THRESHOLD ==> now_ms + DEFAULT_CIRCUIT_OPEN_DURATION_SECS
                * 1000 <= u64::MAX,
        ensures
            final(self).base() == old(self).base(),
            final(self).token_view() == old(self).token_view(),
            transient && attempt < DEFAULT_MAX_RETRIES ==> {
                &&& r matches RetryStep::Retry { backoff_ms } && backoff_ms == DEFAULT_INITIAL_BACKOFF_MS * pow2(attempt as nat)
                &&& final(self).failures() == old(self).failures()
                &&& final(self).open_until() == old(self).open_until()
            },
            !(transient && attempt < DEFAULT_MAX_RETRIES) ==> {
                &&& r matches RetryStep::Fail(Error::Http { message: m }) && m@ == message@
                &&& final(self).failures() == old(self).failures() + 1
                &&& final(self).open_until() == open_after_failure(old(self).failures(), old(self).open_until(), now_ms)
            },
    {
        if transient && attempt < DEFAULT_MAX_RETRIES {
            let mut backoff: u64 = DEFAULT_INITIAL_BACKOFF_MS;
            let mut i: u32 = 0;
            proof {
                reveal_with_fuel(pow2, 3);
            }
            while i < attempt
                invariant
                    i <= attempt,
                    attempt < DEFAULT_MAX_RETRIES,
                    backoff == DEFAULT_INITIAL_BACKOFF_MS * pow2(i as nat),
                    pow2(i as nat) <= 4,
                decreases attempt - i,
            {
                proof {
                    reveal_with_fuel(pow2, 3);
                }
                backoff = backoff * 2;
                i = i + 1;
            }
            RetryStep::Retry { backoff_ms: backoff }
        } else {
            self.record_circuit_failure(now_ms);
            RetryStep::Fail(Error::Http { message })
        }
    }

    /// The error that a response with a failure status becomes. `status` is the
    /// status's text (as `Display` shows it), `body` the error body when it parsed.
    /// A parsed body gives its code, message and detail; otherwise the error is an
    /// internal server error reading `HTTP <status> error`.
    pub fn error_from_response(status: &str, body: Option<HttpErrorResponse>) -> (r: Error)
        ensures
            match body {
                Some(b) => r matches Error::Api { code, message, detail } && code@ == code_name(b.code)
                    && message@ == b.message@ && opt_view(detail) == opt_view(b.detail),
                None => r matches Error::Api { code, message, detail } && code@
                    == "InternalServerError"@ && message@ == "HTTP "@ + status@ + " error"@
                    && detail is None,
            },
    {
        match body {
            Some(b) => Error::Api { code: owned(b.code.name()), message: b.message, detail: b.detail },
            None => {
                proof {
                    reveal_strlit("InternalServerError");
                }
                let mut message = concat_str("HTTP ", status);
                message.append(" error");
                Error::Api { code: owned("InternalServerError"), message, detail: None }
            },
        }
    }
}

} // verus!
