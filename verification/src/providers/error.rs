//! What providers answer when they fail, and what follows from it.
use vstd::prelude::*;
use crate::text::{cat5, contains, lowercase, nat_text, str_contains, u64_text};

verus! {

/// The nature of a failure.
#[derive(Clone, Copy, Debug, PartialEq, Eq, Structural)]
pub enum ProviderErrorKind {
    /// Too many requests.
    RateLimit,
    /// Payment required.
    Billing,
    /// Not authenticated or not authorized.
    AuthError,
    /// A malformed request.
    BadRequest,
    /// A failure of the server.
    ServerError,
    /// No answer in time.
    Timeout,
    /// Anything else.
    Unknown,
}

/// Whether the same provider is tried again after such a failure.
pub open spec fn retryable(kind: ProviderErrorKind) -> bool {
    kind is ServerError || kind is Timeout || kind is Unknown
}

/// Whether such a failure says something about the provider's availability.
pub open spec fn counts(kind: ProviderErrorKind) -> bool {
    !(kind is AuthError) && !(kind is BadRequest)
}

/// A provider is tried again only after failures that count against it.
pub proof fn law_retryable_failures_count(kind: ProviderErrorKind)
    ensures
        retryable(kind) ==> counts(kind),
{
}

impl ProviderErrorKind {
    /// Whether the same provider is tried again.
    pub fn is_retryable(&self) -> (r: bool)
        ensures
            r == retryable(*self),
    {
        match self {
            ProviderErrorKind::ServerError | ProviderErrorKind::Timeout
            | ProviderErrorKind::Unknown => true,
            _ => false,
        }
    }

    /// Whether the failure counts against the provider's availability.
    pub fn counts_as_circuit_failure(&self) -> (r: bool)
        ensures
            r == counts(*self),
    {
        match self {
            ProviderErrorKind::AuthError | ProviderErrorKind::BadRequest => false,
            _ => true,
        }
    }

    /// The name of the nature of the failure.
    pub open spec fn name(&self) -> Seq<char> {
        match *self {
            ProviderErrorKind::RateLimit => "RateLimit"@,
            ProviderErrorKind::Billing => "Billing"@,
            ProviderErrorKind::AuthError => "AuthError"@,
            ProviderErrorKind::BadRequest => "BadRequest"@,
            ProviderErrorKind::ServerError => "ServerError"@,
            ProviderErrorKind::Timeout => "Timeout"@,
            ProviderErrorKind::Unknown => "Unknown"@,
        }
    }

    /// The name of the nature of the failure.
    pub fn to_text(&self) -> (r: String)
        ensures
            r@ == self.name(),
    {
        match self {
            ProviderErrorKind::RateLimit => "RateLimit".to_owned(),
            ProviderErrorKind::Billing => "Billing".to_owned(),
            ProviderErrorKind::AuthError => "AuthError".to_owned(),
            ProviderErrorKind::BadRequest => "BadRequest".to_owned(),
            ProviderErrorKind::ServerError => "ServerError".to_owned(),
            ProviderErrorKind::Timeout => "Timeout".to_owned(),
            ProviderErrorKind::Unknown => "Unknown".to_owned(),
        }
    }
}

/// A failed request.
#[derive(Debug)]
pub struct ProviderError {
    pub kind: ProviderErrorKind,
    pub status: u16,
    /// What the provider answered.
    pub message: String,
    /// How many seconds the provider asks to wait.
    pub retry_after_secs: Option<u64>,
}

/// The nature of a failure with the given status.
pub open spec fn kind_of_status(status: u16) -> ProviderErrorKind {
    if status == 400 {
        ProviderErrorKind::BadRequest
    } else if status == 401 || status == 403 {
        ProviderErrorKind::AuthError
    } else if status == 402 {
        ProviderErrorKind::Billing
    } else if status == 408 {
        ProviderErrorKind::Timeout
    } else if status == 429 {
        ProviderErrorKind::RateLimit
    } else if 500 <= status <= 599 {
        ProviderErrorKind::ServerError
    } else {
        ProviderErrorKind::Unknown
    }
}

impl ProviderError {
    /// The failure that an answer with the given status stands for.
    pub fn from_status(status: u16, body: &str, retry_after_secs: Option<u64>) -> (r: ProviderError)
        ensures
            r.kind == kind_of_status(status),
            r.status == status,
            r.message@ == body@,
            r.retry_after_secs == retry_after_secs,
    {
        let kind = if status == 400 {
            ProviderErrorKind::BadRequest
        } else if status == 401 || status == 403 {
            ProviderErrorKind::AuthError
        } else if status == 402 {
            ProviderErrorKind::Billing
        } else if status == 408 {
            ProviderErrorKind::Timeout
        } else if status == 429 {
            ProviderErrorKind::RateLimit
        } else if 500 <= status && status <= 599 {
            ProviderErrorKind::ServerError
        } else {
            ProviderErrorKind::Unknown
        };
        ProviderError { kind, status, message: body.to_owned(), retry_after_secs }
    }

    /// The failure as a text.
    pub open spec fn text(&self) -> Seq<char> {
        "HTTP "@ + nat_text(self.status as nat) + " ("@ + self.kind.name() + "): "@
            + self.message@
    }

    /// The failure as a text.
    pub fn to_text(&self) -> (r: String)
        ensures
            r@ == self.text(),
    {
        let status = u64_text(self.status as u64);
        let kind = self.kind.to_text();
        let mut r = cat5("HTTP ", status.as_str(), " (", kind.as_str(), "): ");
        r.append(self.message.as_str());
        r
    }
}

/// Why a request failed: a failure that a provider reported, or any other one
/// as a text.
#[derive(Debug)]
pub enum ChatError {
    Provider(ProviderError),
    Other(String),
}

impl ChatError {
    /// The failure as a text.
    pub open spec fn text(&self) -> Seq<char> {
        match *self {
            ChatError::Provider(e) => e.text(),
            ChatError::Other(t) => t@,
        }
    }

    /// The failure as a text.
    pub fn to_text(&self) -> (r: String)
        ensures
            r@ == self.text(),
    {
        match self {
            ChatError::Provider(e) => e.to_text(),
            ChatError::Other(t) => t.clone(),
        }
    }
}

/// Whether the text holds one of the words.
pub open spec fn holds_any(text: Seq<char>, words: Seq<Seq<char>>) -> bool {
    exists|i: int| 0 <= i < words.len() && contains(text, #[trigger] words[i])
}

pub open spec fn words(s: Seq<&str>) -> Seq<Seq<char>> {
    Seq::new(s.len(), |i: int| s[i]@)
}

/// Whether the text holds one of the words.
pub fn contains_any(haystack: &str, needles: &[&str]) -> (r: bool)
    ensures
        r == holds_any(haystack@, words(needles@)),
{
    let mut i: usize = 0;
    while i < needles.len()
        invariant
            i <= needles@.len(),
            forall|k: int|
                0 <= k < i ==> !contains(haystack@, #[trigger] words(needles@)[k]),
        decreases needles.len() - i,
    {
        if str_contains(haystack, needles[i]) {
            proof {
                assert(contains(haystack@, words(needles@)[i as int]));
            }
            return true;
        }
        i = i + 1;
    }
    false
}

pub open spec fn rate_limit_words() -> Seq<Seq<char>> {
    seq![
        "429"@,
        "rate limit"@,
        "rate_limit"@,
        "ratelimit"@,
        "too many requests"@,
        "exceeded your current quota"@,
        "exceeded quota"@,
        "resource has been exhausted"@,
        "resource_exhausted"@,
        "quota exceeded"@,
        "usage limit"@,
        "overloaded_error"@,
        "overloaded"@,
    ]
}

pub open spec fn billing_words() -> Seq<Seq<char>> {
    seq![
        "402"@,
        "payment required"@,
        "insufficient credits"@,
        "credit balance"@,
        "plans & billing"@,
        "insufficient balance"@,
        "billing"@,
    ]
}

pub open spec fn timeout_words() -> Seq<Seq<char>> {
    seq![
        "408"@,
        "timeout"@,
        "timed out"@,
        "deadline exceeded"@,
        "context deadline exceeded"@,
        "request timeout"@,
        "connection timed out"@,
    ]
}

pub open spec fn auth_words() -> Seq<Seq<char>> {
    seq![
        "401"@,
        "403"@,
        "invalid api key"@,
        "invalid_api_key"@,
        "incorrect api key"@,
        "invalid token"@,
        "authentication"@,
        "re-authenticate"@,
        "oauth token refresh failed"@,
        "unauthorized"@,
        "forbidden"@,
        "access denied"@,
        "expired"@,
        "token has expired"@,
        "no credentials found"@,
        "no api key found"@,
    ]
}

pub open spec fn bad_request_words() -> Seq<Seq<char>> {
    seq![
        "400"@,
        "bad request"@,
        "invalid request"@,
        "invalid_request_error"@,
        "string should match pattern"@,
        "tool_use.id"@,
        "tool_use_id"@,
        "messages.1.content.1.tool_use.id"@,
        "invalid request format"@,
    ]
}

pub open spec fn server_words() -> Seq<Seq<char>> {
    seq![
        "500"@,
        "502"@,
        "503"@,
        "521"@,
        "522"@,
        "523"@,
        "524"@,
        "529"@,
        "internal server error"@,
        "service unavailable"@,
        "bad gateway"@,
    ]
}

/// The nature of a failure of which only a text in lower case is known: the
/// first whose words occur in it.
pub open spec fn kind_of_lower_text(t: Seq<char>) -> ProviderErrorKind {
    if holds_any(t, rate_limit_words()) {
        ProviderErrorKind::RateLimit
    } else if holds_any(t, billing_words()) {
        ProviderErrorKind::Billing
    } else if holds_any(t, timeout_words()) {
        ProviderErrorKind::Timeout
    } else if holds_any(t, auth_words()) {
        ProviderErrorKind::AuthError
    } else if holds_any(t, bad_request_words()) {
        ProviderErrorKind::BadRequest
    } else if holds_any(t, server_words()) {
        ProviderErrorKind::ServerError
    } else {
        ProviderErrorKind::Unknown
    }
}

/// The nature of a failure of which only a text in lower case is known.
pub fn classify_lower_text(s: &str) -> (r: ProviderErrorKind)
    ensures
        r == kind_of_lower_text(s@),
{
    let rate_limit: Vec<&str> = vec![
        "429",
        "rate limit",
        "rate_limit",
        "ratelimit",
        "too many requests",
        "exceeded your current quota",
        "exceeded quota",
        "resource has been exhausted",
        "resource_exhausted",
        "quota exceeded",
        "usage limit",
        "overloaded_error",
        "overloaded",
    ];
    proof {
        assert(words(rate_limit@) =~= rate_limit_words());
    }
    if contains_any(s, &rate_limit) {
        return ProviderErrorKind::RateLimit;
    }
    let billing: Vec<&str> = vec![
        "402",
        "payment required",
        "insufficient credits",
        "credit balance",
        "plans & billing",
        "insufficient balance",
        "billing",
    ];
    proof {
        assert(words(billing@) =~= billing_words());
    }
    if contains_any(s, &billing) {
        return ProviderErrorKind::Billing;
    }
    let timeout: Vec<&str> = vec![
        "408",
        "timeout",
        "timed out",
        "deadline exceeded",
        "context deadline exceeded",
        "request timeout",
        "connection timed out",
    ];
    proof {
        assert(words(timeout@) =~= timeout_words());
    }
    if contains_any(s, &timeout) {
        return ProviderErrorKind::Timeout;
    }
    let auth: Vec<&str> = vec![
        "401",
        "403",
        "invalid api key",
        "invalid_api_key",
        "incorrect api key",
        "invalid token",
        "authentication",
        "re-authenticate",
        "oauth token refresh failed",
        "unauthorized",
        "forbidden",
        "access denied",
        "expired",
        "token has expired",
        "no credentials found",
        "no api key found",
    ];
    proof {
        assert(words(auth@) =~= auth_words());
    }
    if contains_any(s, &auth) {
        return ProviderErrorKind::AuthError;
    }
    let bad_request: Vec<&str> = vec![
        "400",
        "bad request",
        "invalid request",
        "invalid_request_error",
        "string should match pattern",
        "tool_use.id",
        "tool_use_id",
        "messages.1.content.1.tool_use.id",
        "invalid request format",
    ];
    proof {
        assert(words(bad_request@) =~= bad_request_words());
    }
    if contains_any(s, &bad_request) {
        return ProviderErrorKind::BadRequest;
    }
    let server: Vec<&str> = vec![
        "500",
        "502",
        "503",
        "521",
        "522",
        "523",
        "524",
        "529",
        "internal server error",
        "service unavailable",
        "bad gateway",
    ];
    proof {
        assert(words(server@) =~= server_words());
    }
    if contains_any(s, &server) {
        return ProviderErrorKind::ServerError;
    }
    ProviderErrorKind::Unknown
}

/// The nature of a failure: as the provider reported it, else by the words of
/// its text without regard to case.
pub open spec fn kind_of_error(err: ChatError) -> ProviderErrorKind {
    match err {
        ChatError::Provider(e) => e.kind,
        ChatError::Other(t) => kind_of_lower_text(lowercase(t@)),
    }
}

/// The nature of a failure.
pub fn classify_error(err: &ChatError) -> (r: ProviderErrorKind)
    ensures
        r == kind_of_error(*err),
{
    match err {
        ChatError::Provider(e) => e.kind,
        ChatError::Other(t) => {
            let lower = t.as_str().to_lowercase();
            classify_lower_text(lower.as_str())
        },
    }
}

} // verus!
