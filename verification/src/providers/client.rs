//! Talking to an endpoint: where it is, what is sent with every request, and what its refusals mean.
//!
//! The key is read by the caller, goes into one header that is marked as a secret, and is held
//! nowhere else.

use std::time::Duration;

use vstd::prelude::*;

use crate::providers::error::{nanos, status_error, ProviderErrorView};
use crate::providers::error::ProviderError;
use crate::providers::retry::RetryPolicy;
use crate::text::{decimal, trim};
use crate::text::{chars_of, joined, string_of_range, trimmed};

verus! {

/// The usual endpoint.
pub const DEFAULT_BASE_URL: &'static str = "https://openrouter.ai/api/v1";

/// The environment variable that usually holds the key.
pub const DEFAULT_API_KEY_ENV: &'static str = "OPENROUTER_API_KEY";

/// A text without the slashes at its end.
pub open spec fn without_slashes(s: Seq<char>) -> Seq<char>
    decreases s.len(),
{
    if s.len() > 0 && s.last() == '/' {
        without_slashes(s.drop_last())
    } else {
        s
    }
}

/// A text without the slashes at its end.
pub fn trim_slashes(s: &str) -> (r: String)
    ensures
        r@ == without_slashes(s@),
{
    let chars = chars_of(s);
    let mut end: usize = chars.len();
    assert(chars@.take(end as int) =~= s@);
    while end > 0 && chars[end - 1] == '/'
        invariant
            chars@ == s@,
            end <= chars@.len(),
            without_slashes(s@) == without_slashes(chars@.take(end as int)),
        decreases end,
    {
        assert(chars@.take(end as int).drop_last() =~= chars@.take(end - 1));
        end -= 1;
    }
    assert(chars@.subrange(0, end as int) =~= chars@.take(end as int));
    string_of_range(chars.as_slice(), 0, end)
}

/// How an endpoint is reached.
#[derive(Debug, Clone)]
pub struct OpenRouterProviderBuilder {
    /// Where it is.
    pub base_url: String,
    /// The environment variable that holds the key.
    pub api_key_env: String,
    /// Who asks, as an address.
    pub referer: Option<String>,
    /// Who asks, as a name.
    pub title: Option<String>,
    /// The requests per minute.
    pub rpm: u32,
    /// When to try again.
    pub policy: RetryPolicy,
}

/// What a way to reach an endpoint is, as mathematics.
#[verifier::ext_equal]
pub struct OpenRouterProviderBuilderView {
    pub base_url: Seq<char>,
    pub api_key_env: Seq<char>,
    pub referer: Option<Seq<char>>,
    pub title: Option<Seq<char>>,
    pub rpm: u32,
    pub policy: RetryPolicy,
}

impl DeepView for OpenRouterProviderBuilder {
    type V = OpenRouterProviderBuilderView;

    open spec fn deep_view(&self) -> OpenRouterProviderBuilderView {
        OpenRouterProviderBuilderView {
            base_url: self.base_url@,
            api_key_env: self.api_key_env@,
            referer: self.referer.deep_view(),
            title: self.title.deep_view(),
            rpm: self.rpm,
            policy: self.policy,
        }
    }
}

impl Default for OpenRouterProviderBuilder {
    fn default() -> (b: OpenRouterProviderBuilder)
        ensures
            b.base_url@ == DEFAULT_BASE_URL@,
            b.api_key_env@ == DEFAULT_API_KEY_ENV@,
            b.referer is None,
            b.title is None,
            b.rpm == 60,
            b.policy.max_attempts == 4,
            nanos(b.policy.base_delay) == 500_000_000,
            nanos(b.policy.max_delay) == 30_000_000_000,
    {
        OpenRouterProviderBuilder {
            base_url: DEFAULT_BASE_URL.to_owned(),
            api_key_env: DEFAULT_API_KEY_ENV.to_owned(),
            referer: None,
            title: None,
            rpm: 60,
            policy: RetryPolicy::default(),
        }
    }
}

impl OpenRouterProviderBuilder {
    /// With another endpoint; slashes at the end of its address are dropped.
    #[must_use]
    pub fn base_url(self, url: String) -> (b: OpenRouterProviderBuilder)
        ensures
            b.deep_view() == (OpenRouterProviderBuilderView {
                base_url: without_slashes(url@),
                ..self.deep_view()
            }),
    {
        let mut b = self;
        b.base_url = trim_slashes(url.as_str());
        b
    }

    /// With another environment variable that holds the key.
    #[must_use]
    pub fn api_key_env(self, var: String) -> (b: OpenRouterProviderBuilder)
        ensures
            b.deep_view() == (OpenRouterProviderBuilderView {
                api_key_env: var@,
                ..self.deep_view()
            }),
    {
        let mut b = self;
        b.api_key_env = var;
        b
    }

    /// With an address of who asks.
    #[must_use]
    pub fn referer(self, referer: String) -> (b: OpenRouterProviderBuilder)
        ensures
            b.deep_view() == (OpenRouterProviderBuilderView {
                referer: Some(referer@),
                ..self.deep_view()
            }),
    {
        let mut b = self;
        b.referer = Some(referer);
        b
    }

    /// With a name of who asks.
    #[must_use]
    pub fn title(self, title: String) -> (b: OpenRouterProviderBuilder)
        ensures
            b.deep_view() == (OpenRouterProviderBuilderView {
                title: Some(title@),
                ..self.deep_view()
            }),
    {
        let mut b = self;
        b.title = Some(title);
        b
    }

    /// With another number of requests per minute.
    #[must_use]
    pub fn rpm(self, rpm: u32) -> (b: OpenRouterProviderBuilder)
        ensures
            b.deep_view() == (OpenRouterProviderBuilderView { rpm, ..self.deep_view() }),
    {
        let mut b = self;
        b.rpm = rpm;
        b
    }

    /// With another policy for trying again.
    #[must_use]
    pub fn retry_policy(self, policy: RetryPolicy) -> (b: OpenRouterProviderBuilder)
        ensures
            b.deep_view() == (OpenRouterProviderBuilderView { policy, ..self.deep_view() }),
    {
        let mut b = self;
        b.policy = policy;
        b
    }

    /// The key that was found under its environment variable; where none was, the error names the
    /// variable.
    pub fn key(&self, found: Option<String>) -> (r: Result<String, ProviderError>)
        ensures
            match (found, r) {
                (Some(k), Ok(key)) => key@ == k@,
                (None, Err(e)) => e.deep_view() == ProviderErrorView::MissingApiKey(
                    self.api_key_env@,
                ),
                _ => false,
            },
    {
        match found {
            Some(k) => Ok(k),
            None => Err(ProviderError::MissingApiKey(self.api_key_env.clone())),
        }
    }

    /// What is sent with every request, given the key.
    pub fn headers(&self, key: &str) -> (r: Result<Vec<Header>, ProviderError>)
        ensures
            match r {
                Ok(h) => client_headers(
                    key@,
                    self.deep_view().referer,
                    self.deep_view().title,
                ) == Ok::<Seq<HeaderView>, ProviderErrorView>(h.deep_view()),
                Err(e) => client_headers(
                    key@,
                    self.deep_view().referer,
                    self.deep_view().title,
                ) == Err::<Seq<HeaderView>, ProviderErrorView>(e.deep_view()),
            },
    {
        let mut list: Vec<Header> = Vec::new();
        match bearer(key) {
            Ok(h) => {
                list.push(h);
            },
            Err(e) => {
                return Err(e);
            },
        }
        list.push(content_type());
        assert(list.deep_view() =~= seq![bearer_header(key@), content_type_header()]);
        if let Some(r) = &self.referer {
            if !is_header_text(r.as_str()) {
                return Err(ProviderError::Config("invalid HTTP-Referer header".to_owned()));
            }
            let ghost before = list.deep_view();
            list.push(Header { name: "HTTP-Referer", value: r.clone(), sensitive: false });
            assert(list.deep_view() =~= before + optional_header("HTTP-Referer"@, Some(r@)));
        }
        if let Some(t) = &self.title {
            if !is_header_text(t.as_str()) {
                return Err(ProviderError::Config("invalid X-Title header".to_owned()));
            }
            let ghost before = list.deep_view();
            list.push(Header { name: "X-Title", value: t.clone(), sensitive: false });
            assert(list.deep_view() =~= before + optional_header("X-Title"@, Some(t@)));
        }
        proof {
            let base = seq![bearer_header(key@), content_type_header()];
            assert(base + Seq::<HeaderView>::empty() =~= base);
            let more = base + optional_header("HTTP-Referer"@, self.deep_view().referer);
            assert(more + Seq::<HeaderView>::empty() =~= more);
        }
        Ok(list)
    }
}

/// The address that completions are asked for at.
#[must_use]
pub fn completions_url(base_url: &str) -> (r: String)
    ensures
        r@ == base_url@ + "/chat/completions"@,
{
    joined(base_url, "/chat/completions")
}

/// A header of a request.
#[derive(Debug, PartialEq)]
pub struct Header {
    /// Its name.
    pub name: &'static str,
    /// Its value.
    pub value: String,
    /// Whether the value is a secret.
    pub sensitive: bool,
}

/// What a header is, as mathematics.
#[verifier::ext_equal]
pub struct HeaderView {
    pub name: Seq<char>,
    pub value: Seq<char>,
    pub sensitive: bool,
}

impl DeepView for Header {
    type V = HeaderView;

    open spec fn deep_view(&self) -> HeaderView {
        HeaderView { name: self.name@, value: self.value@, sensitive: self.sensitive }
    }
}

/// Whether a text can be the value of a header: it holds no control characters but tabs.
pub open spec fn header_text(s: Seq<char>) -> bool {
    forall|i: int|
        0 <= i < s.len() ==> (' ' <= #[trigger] s[i] && s[i] != '\u{7f}') || s[i] == '\t'
}

/// `reqwest::header::HeaderValue::from_str`: it takes every text without control characters but
/// tabs; every byte of a character beyond ASCII is taken, too.
#[verifier::external_body]
pub(crate) fn is_header_text(text: &str) -> (r: bool)
    ensures
        r == header_text(text@),
{
    reqwest::header::HeaderValue::from_str(text).is_ok()
}

/// The header that holds the key.
pub open spec fn bearer_header(key: Seq<char>) -> HeaderView {
    HeaderView { name: "authorization"@, value: "Bearer "@ + key, sensitive: true }
}

/// The header that tells the type of the body.
pub open spec fn content_type_header() -> HeaderView {
    HeaderView { name: "content-type"@, value: "application/json"@, sensitive: false }
}

/// The error for a key that no header can hold. It does not hold the key.
pub open spec fn bad_key() -> ProviderErrorView {
    ProviderErrorView::Config("invalid API key (not a valid header)"@)
}

pub(crate) fn bearer(key: &str) -> (r: Result<Header, ProviderError>)
    ensures
        match r {
            Ok(h) => header_text("Bearer "@ + key@) && h.deep_view() == bearer_header(key@),
            Err(e) => !header_text("Bearer "@ + key@) && e.deep_view() == bad_key(),
        },
{
    let value = joined("Bearer ", key);
    if !is_header_text(value.as_str()) {
        return Err(ProviderError::Config("invalid API key (not a valid header)".to_owned()));
    }
    Ok(Header { name: "authorization", value, sensitive: true })
}

pub(crate) fn content_type() -> (h: Header)
    ensures
        h.deep_view() == content_type_header(),
{
    Header { name: "content-type", value: "application/json".to_owned(), sensitive: false }
}

/// A header that is sent where it is set.
pub open spec fn optional_header(name: Seq<char>, value: Option<Seq<char>>) -> Seq<HeaderView> {
    match value {
        Some(v) => seq![HeaderView { name, value: v, sensitive: false }],
        None => Seq::empty(),
    }
}

/// What is sent with every request, or why nothing can be: a value that no header can hold.
pub open spec fn client_headers(
    key: Seq<char>,
    referer: Option<Seq<char>>,
    title: Option<Seq<char>>,
) -> Result<Seq<HeaderView>, ProviderErrorView> {
    if !header_text("Bearer "@ + key) {
        Err(bad_key())
    } else if referer is Some && !header_text(referer->0) {
        Err(ProviderErrorView::Config("invalid HTTP-Referer header"@))
    } else if title is Some && !header_text(title->0) {
        Err(ProviderErrorView::Config("invalid X-Title header"@))
    } else {
        Ok(
            seq![bearer_header(key), content_type_header()] + optional_header(
                "HTTP-Referer"@,
                referer,
            ) + optional_header("X-Title"@, title),
        )
    }
}

/// The key stands in one header, which is marked as a secret, and in no error.
pub proof fn the_key_is_a_secret(
    key: Seq<char>,
    referer: Option<Seq<char>>,
    title: Option<Seq<char>>,
)
    ensures
        match client_headers(key, referer, title) {
            Ok(list) => list[0] == bearer_header(key) && list[0].sensitive && forall|i: int|
                1 <= i < list.len() ==> !(#[trigger] list[i]).sensitive,
            Err(e) => e == bad_key() || e == ProviderErrorView::Config(
                "invalid HTTP-Referer header"@,
            ) || e == ProviderErrorView::Config("invalid X-Title header"@),
        },
{
}

/// Whether a text holds nothing but decimal digits.
pub open spec fn all_digits(s: Seq<char>) -> bool {
    forall|i: int| 0 <= i < s.len() ==> '0' <= #[trigger] s[i] <= '9'
}

/// The number that digits are.
pub open spec fn digits_value(s: Seq<char>) -> nat
    decreases s.len(),
{
    if s.len() == 0 {
        0
    } else {
        (digits_value(s.drop_last()) * 10 + (s.last() as int - 48)) as nat
    }
}

/// The digits of a number that may carry a plus sign.
pub open spec fn unsigned_digits(s: Seq<char>) -> Seq<char> {
    if s.len() > 0 && s[0] == '+' {
        s.drop_first()
    } else {
        s
    }
}

/// The number that a text is, where it is one and fits.
pub open spec fn number_in(s: Seq<char>) -> Option<nat> {
    let d = unsigned_digits(s);
    if d.len() > 0 && all_digits(d) && digits_value(d) <= u64::MAX {
        Some(digits_value(d))
    } else {
        None
    }
}

fn read_number(s: &str) -> (r: Option<u64>)
    ensures
        match r {
            Some(n) => number_in(s@) == Some(n as nat),
            None => number_in(s@) is None,
        },
{
    let chars = chars_of(s);
    let start: usize = if chars.len() > 0 && chars[0] == '+' {
        1
    } else {
        0
    };
    let ghost d = unsigned_digits(s@);
    assert(d =~= chars@.skip(start as int));
    if start == chars.len() {
        return None;
    }
    let mut n: u64 = 0;
    let mut i: usize = start;
    let mut over: bool = false;
    assert(d.take(0) =~= Seq::empty());
    while i < chars.len()
        invariant
            chars@ == s@,
            start <= i <= chars@.len(),
            d == unsigned_digits(s@),
            d == chars@.skip(start as int),
            all_digits(d.take(i - start)),
            !over ==> n == digits_value(d.take(i - start)),
            over ==> digits_value(d.take(i - start)) > u64::MAX,
        decreases chars@.len() - i,
    {
        let c = chars[i];
        let ghost k = i - start;
        assert(d[k] == c);
        if c < '0' || c > '9' {
            assert(!all_digits(d));
            return None;
        }
        proof {
            assert(d.take(k + 1).drop_last() =~= d.take(k));
            assert(d.take(k + 1).last() == c);
            assert forall|j: int| 0 <= j < k + 1 implies '0' <= #[trigger] d.take(k + 1)[j] <= '9' by {
                if j < k {
                    assert(d.take(k)[j] == d.take(k + 1)[j]);
                }
            }
        }
        let v: u64 = (c as u32 - 48) as u64;
        if !over {
            if n > 1_844_674_407_370_955_161 || (n == 1_844_674_407_370_955_161 && v > 5) {
                over = true;
            } else {
                n = n * 10 + v;
            }
        }
        i += 1;
    }
    assert(d.take(d.len() as int) =~= d);
    if over {
        None
    } else {
        Some(n)
    }
}

/// The wait that an endpoint asks for, where it asks in seconds.
pub open spec fn asked_seconds(raw: Option<Seq<char>>) -> Option<nat> {
    match raw {
        Some(text) => number_in(trim(text)),
        None => None,
    }
}

/// The wait that a `Retry-After` header asks for. A date is not read.
#[must_use]
pub fn parse_retry_after(raw: Option<&str>) -> (r: Option<Duration>)
    ensures
        match r {
            Some(d) => asked_seconds(raw.deep_view()) is Some && nanos(d) == asked_seconds(
                raw.deep_view(),
            )->0 * 1_000_000_000,
            None => asked_seconds(raw.deep_view()) is None,
        },
{
    match raw {
        Some(text) => {
            let t = trimmed(text);
            match read_number(t.as_str()) {
                Some(n) => Some(Duration::from_secs(n)),
                None => None,
            }
        },
        None => None,
    }
}

/// The bytes of a character in UTF-8.
pub open spec fn width(c: char) -> nat {
    if '\u{7f}' >= c {
        1
    } else if '\u{7ff}' >= c {
        2
    } else if '\u{ffff}' >= c {
        3
    } else {
        4
    }
}

/// The bytes of a text in UTF-8.
pub open spec fn byte_len(s: Seq<char>) -> nat
    decreases s.len(),
{
    if s.len() == 0 {
        0
    } else {
        byte_len(s.drop_last()) + width(s.last())
    }
}

/// The longest beginning of a text that fits into `max` bytes.
pub open spec fn within(s: Seq<char>, max: nat) -> Seq<char>
    decreases s.len(),
{
    if byte_len(s) <= max || s.len() == 0 {
        s
    } else {
        within(s.drop_last(), max)
    }
}

/// A text cut to `max` bytes; an ellipsis shows that it was cut.
pub open spec fn clipped(s: Seq<char>, max: nat) -> Seq<char> {
    if byte_len(s) <= max {
        s
    } else {
        within(s, max) + "\u{2026}"@
    }
}

proof fn lemma_bytes_grow(s: Seq<char>, n: int)
    requires
        0 <= n <= s.len(),
    ensures
        byte_len(s.take(n)) <= byte_len(s),
    decreases s.len() - n,
{
    if n < s.len() {
        lemma_bytes_grow(s, n + 1);
        assert(s.take(n + 1).drop_last() =~= s.take(n));
    } else {
        assert(s.take(n) =~= s);
    }
}

proof fn lemma_within(s: Seq<char>, max: nat, n: int)
    requires
        0 <= n < s.len(),
        byte_len(s.take(n)) <= max < byte_len(s.take(n + 1)),
    ensures
        within(s, max) == s.take(n),
    decreases s.len(),
{
    lemma_bytes_grow(s, n + 1);
    let shorter = s.drop_last();
    if n == s.len() - 1 {
        assert(shorter =~= s.take(n));
        assert(within(shorter, max) == shorter);
    } else {
        assert(shorter.take(n) =~= s.take(n));
        assert(shorter.take(n + 1) =~= s.take(n + 1));
        lemma_within(shorter, max, n);
    }
}

/// A text cut to `max` bytes, between characters; an ellipsis shows that it was cut.
#[must_use]
pub fn truncate(s: &str, max: usize) -> (r: String)
    ensures
        r@ == clipped(s@, max as nat),
{
    let chars = chars_of(s);
    let mut total: usize = 0;
    let mut i: usize = 0;
    assert(chars@.take(0) =~= Seq::empty());
    while i < chars.len()
        invariant
            chars@ == s@,
            i <= chars@.len(),
            total == byte_len(chars@.take(i as int)),
            total <= max,
        decreases chars@.len() - i,
    {
        let c = chars[i];
        let w: usize = if '\u{7f}' >= c {
            1
        } else if '\u{7ff}' >= c {
            2
        } else if '\u{ffff}' >= c {
            3
        } else {
            4
        };
        proof {
            assert(chars@.take(i + 1).drop_last() =~= chars@.take(i as int));
            assert(chars@.take(i + 1).last() == c);
        }
        if w > max - total {
            proof {
                lemma_within(s@, max as nat, i as int);
                lemma_bytes_grow(s@, i + 1);
                assert(chars@.subrange(0, i as int) =~= s@.take(i as int));
            }
            let mut r = string_of_range(chars.as_slice(), 0, i);
            r.append("\u{2026}");
            return r;
        }
        total = total + w;
        i += 1;
    }
    assert(chars@.take(i as int) =~= s@);
    s.to_owned()
}

/// The most of an error's body that is kept, in bytes.
pub const BODY_BYTES: usize = 512;

/// What an answer's status means: a success is none, a demand to slow down carries the wait, and
/// anything else carries the beginning of the body.
#[must_use]
pub fn refusal(status: u16, retry_after: Option<&str>, body: Option<&str>) -> (r: Option<
    ProviderError,
>)
    ensures
        r is None <==> 200 <= status < 300,
        status == 429 ==> (r matches Some(ProviderError::RateLimited { retry_after: wait }) && (
        match wait {
            Some(d) => asked_seconds(retry_after.deep_view()) is Some && nanos(d) == asked_seconds(
                retry_after.deep_view(),
            )->0 * 1_000_000_000,
            None => asked_seconds(retry_after.deep_view()) is None,
        })),
        !(200 <= status < 300) && status != 429 ==> r is Some && r->0.deep_view() == status_error(
            status,
            match body.deep_view() {
                Some(b) => Some(clipped(b, BODY_BYTES as nat)),
                None => None,
            },
        ),
{
    if 200 <= status && status < 300 {
        return None;
    }
    if status == 429 {
        return Some(ProviderError::RateLimited { retry_after: parse_retry_after(retry_after) });
    }
    let kept = match body {
        Some(b) => Some(truncate(b, BODY_BYTES)),
        None => None,
    };
    Some(ProviderError::from_status(status, kept))
}

/// A cut text fits, but for the ellipsis, and is a beginning of the whole.
pub proof fn a_cut_text_fits(s: Seq<char>, max: nat)
    ensures
        byte_len(within(s, max)) <= max,
        within(s, max).is_prefix_of(s),
        byte_len(s) <= max ==> clipped(s, max) == s,
    decreases s.len(),
{
    if byte_len(s) > max {
        a_cut_text_fits(s.drop_last(), max);
    }
}

/// Only slashes are taken off the end of an address, and all of them.
pub proof fn only_trailing_slashes_go(s: Seq<char>)
    ensures
        without_slashes(s).len() <= s.len(),
        without_slashes(s) == s.take(without_slashes(s).len() as int),
        forall|i: int| without_slashes(s).len() <= i < s.len() ==> #[trigger] s[i] == '/',
        without_slashes(s).len() > 0 ==> without_slashes(s).last() != '/',
    decreases s.len(),
{
    if s.len() > 0 && s.last() == '/' {
        let before = s.drop_last();
        only_trailing_slashes_go(before);
        assert(before.take(without_slashes(before).len() as int) =~= s.take(
            without_slashes(before).len() as int,
        ));
        assert forall|i: int| without_slashes(s).len() <= i < s.len() implies #[trigger] s[i] == '/' by {
            if i < before.len() {
                assert(before[i] == s[i]);
            }
        }
    } else {
        assert(s.take(s.len() as int) =~= s);
    }
}

/// A text is cut no shorter than it has to be: with one more character it would not fit. What is cut
/// tells so by a mark at its end.
pub proof fn a_cut_text_is_as_long_as_fits(s: Seq<char>, max: nat)
    ensures
        within(s, max).len() < s.len() ==> byte_len(s.take(within(s, max).len() as int + 1)) > max,
        byte_len(s) > max ==> clipped(s, max) == within(s, max) + "\u{2026}"@,
    decreases s.len(),
{
    if byte_len(s) > max && s.len() > 0 {
        let before = s.drop_last();
        a_cut_text_is_as_long_as_fits(before, max);
        let n = within(s, max).len() as int;
        a_cut_text_fits(before, max);
        if n < before.len() {
            assert(before.take(n + 1) =~= s.take(n + 1));
        } else {
            assert(s.take(n + 1) =~= s);
        }
    }
}

/// A text is as long in bytes as its characters are.
pub proof fn bytes_add_up(a: Seq<char>, b: Seq<char>, c: char)
    ensures
        byte_len(a + b) == byte_len(a) + byte_len(b),
        byte_len(seq![c]) == (if c <= '\u{7f}' {
            1nat
        } else if c <= '\u{7ff}' {
            2
        } else if c <= '\u{ffff}' {
            3
        } else {
            4
        }),
    decreases b.len(),
{
    assert(seq![c].drop_last() =~= Seq::empty());
    assert(byte_len(seq![c].drop_last()) == 0);
    if b.len() == 0 {
        assert(a + b =~= a);
    } else {
        bytes_add_up(a, b.drop_last(), c);
        assert((a + b).drop_last() =~= a + b.drop_last());
        assert((a + b).last() == b.last());
    }
}

/// A wait that an endpoint asks for in seconds, written in digits, is read as that many seconds, with
/// white space around it or a sign before it; what is no such number is none.
pub proof fn a_wait_in_digits_is_read(n: nat)
    requires
        n <= u64::MAX,
    ensures
        number_in(decimal(n)) == Some(n),
        number_in(seq!['+'] + decimal(n)) == Some(n),
        asked_seconds(None) is None,
        number_in(Seq::empty()) is None,
        forall|text: Seq<char>| #[trigger] asked_seconds(Some(text)) == number_in(trim(text)),
        forall|text: Seq<char>|
            (#[trigger] number_in(text)) is Some ==> forall|i: int|
                1 <= i < text.len() ==> '0' <= #[trigger] text[i] <= '9',
{
    lemma_decimal_is_read(n);
    let d = decimal(n);
    assert(d[0] != '+');
    let signed = seq!['+'] + d;
    assert(signed.drop_first() =~= d);
    assert forall|text: Seq<char>| (#[trigger] number_in(text)) is Some implies forall|i: int|
        1 <= i < text.len() ==> '0' <= #[trigger] text[i] <= '9' by {
        let digits = unsigned_digits(text);
        assert forall|i: int| 1 <= i < text.len() implies '0' <= #[trigger] text[i] <= '9' by {
            if text[0] == '+' {
                assert(digits[i - 1] == text[i]);
            } else {
                assert(digits[i] == text[i]);
            }
        }
    }
}

proof fn lemma_decimal_is_read(n: nat)
    ensures
        decimal(n).len() > 0,
        all_digits(decimal(n)),
        digits_value(decimal(n)) == n,
    decreases n,
{
    let d = decimal(n);
    if n < 10 {
        assert(d.drop_last() =~= Seq::empty());
        assert(digits_value(d.drop_last()) == 0);
        assert(d.last() as int == n + 48);
    } else {
        lemma_decimal_is_read(n / 10);
        let before = decimal(n / 10);
        assert(d.drop_last() =~= before);
        assert(d.last() as int == n % 10 + 48);
        assert forall|i: int| 0 <= i < d.len() implies '0' <= #[trigger] d[i] <= '9' by {
            if i < before.len() {
                assert(before[i] == d[i]);
            }
        }
    }
}

/// Which headers go with every request: the key, what the body is, and who asks where that is told, in
/// that order; a text that no header can hold is refused.
pub proof fn every_request_tells_its_key(
    key: Seq<char>,
    referer: Option<Seq<char>>,
    title: Option<Seq<char>>,
)
    ensures
        client_headers(key, referer, title) is Ok <==> header_text("Bearer "@ + key) && (referer is Some
            ==> header_text(referer->0)) && (title is Some ==> header_text(title->0)),
        client_headers(key, referer, title) matches Ok(h) ==> {
            &&& h.len() == 2 + (if referer is Some {
                1nat
            } else {
                0
            }) + (if title is Some {
                1nat
            } else {
                0
            })
            &&& h[0].name == "authorization"@ && h[0].value == "Bearer "@ + key
            &&& h[1].name == "content-type"@ && h[1].value == "application/json"@
            &&& referer is Some ==> h[2].name == "HTTP-Referer"@ && h[2].value == referer->0
            &&& title is Some ==> h.last().name == "X-Title"@ && h.last().value == title->0
        },
{
}

} // verus!
