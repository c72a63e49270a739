//! The speed test against Cloudflare's endpoints: its results and progress
//! reports, the transfer sizes it ramps through, the request URL, and the
//! message for a refused request.
//!
//! The transfers themselves are network I/O and run outside this library;
//! a speed sample has the type `S` that the caller measures in.
use vstd::prelude::*;
use crate::text::{
    chars_to_string, decimal, lemma_decimal_parses, opt_chars, parse_u64, push_chars, push_decimal,
    push_str, to_chars,
};

verus! {

broadcast use vstd::string::group_string_axioms;

/// The outcome of a finished speed test, in Mbps.
#[derive(Debug, Clone)]
pub struct SpeedTestResult<S> {
    pub download_mbps: S,
    pub upload_mbps: S,
}

/// A report from a running speed test.
#[derive(Debug, Clone)]
pub enum SpeedTestProgress<S> {
    /// The download phase, with the speed so far.
    Downloading(S),
    /// The upload phase, with the speed so far.
    Uploading(S),
    Done(SpeedTestResult<S>),
    Error(String),
}

/// The smallest transfer, and the first of each phase.
pub const MIN_TRANSFER_BYTES: u64 = 1_000_000;

/// Download sizes, smallest first; the last stays below what Cloudflare
/// refuses to serve.
pub const DOWNLOAD_TRANSFER_SIZES: [u64; 3] = [1_000_000, 2_000_000, 5_000_000];

/// Upload sizes, smallest first.
pub const UPLOAD_TRANSFER_SIZES: [u64; 4] = [1_000_000, 2_000_000, 5_000_000, 10_000_000];

/// The size of the transfer numbered `round` (from 0): the sizes in turn,
/// then the largest for every later round.
pub fn transfer_size(sizes: &[u64], round: usize) -> (r: u64)
    requires
        sizes@.len() > 0,
    ensures
        r == (if round < sizes@.len() {
            sizes@[round as int]
        } else {
            sizes@.last()
        }),
{
    if round < sizes.len() {
        sizes[round]
    } else {
        sizes[sizes.len() - 1]
    }
}

/// The endpoint that serves `bytes` bytes.
pub open spec fn download_url_text(bytes: u64) -> Seq<char> {
    "https://speed.cloudflare.com/__down?bytes="@ + decimal(bytes as nat)
}

/// The request asks for exactly `bytes` bytes: after the fixed endpoint
/// text, the URL holds the count, which reads back as `bytes`.
pub proof fn lemma_download_url_asks_for(bytes: u64)
    ensures
        download_url_text(bytes).len() > 42,
        download_url_text(bytes).take(42) == "https://speed.cloudflare.com/__down?bytes="@,
        parse_u64(download_url_text(bytes).skip(42)) == Some(bytes),
{
    reveal_strlit("https://speed.cloudflare.com/__down?bytes=");
    let pre = "https://speed.cloudflare.com/__down?bytes="@;
    let t = download_url_text(bytes);
    lemma_decimal_parses(bytes);
    assert(pre.len() == 42);
    assert(t.take(42) =~= pre);
    assert(t.skip(42) =~= decimal(bytes as nat));
}

/// The URL that downloads `bytes` bytes from Cloudflare's speed endpoint.
pub fn download_url(bytes: u64) -> (r: String)
    ensures
        r@ == download_url_text(bytes),
{
    let mut out: Vec<char> = Vec::new();
    push_str(&mut out, "https://speed.cloudflare.com/__down?bytes=");
    push_decimal(&mut out, bytes as u128);
    chars_to_string(&out)
}

/// The message for a refused transfer in `direction` (`"download"` or
/// `"upload"`): a rate limit (HTTP 429) says so, with the server's
/// `Retry-After` when it sent one; any other status is named by its number.
pub open spec fn status_error_text(direction: Seq<char>, code: u16, retry_after: Option<Seq<char>>) -> Seq<
    char,
> {
    if code == 429 {
        direction + " test hit Cloudflare's rate limit (HTTP 429)"@ + match retry_after {
            Some(r) => "; retry after "@ + r + " s"@,
            None => "; try again later"@,
        }
    } else {
        direction + " test failed: HTTP "@ + decimal(code as nat)
    }
}

/// A refusal message begins with the direction; for a status other than 429
/// it ends with the status number, which reads back as that number.
pub proof fn lemma_status_error_names_code(
    direction: Seq<char>,
    code: u16,
    retry_after: Option<Seq<char>>,
)
    ensures
        status_error_text(direction, code, retry_after).take(direction.len() as int) == direction,
        code != 429 ==> parse_u64(
            status_error_text(direction, code, retry_after).skip(direction.len() as int + 19),
        ) == Some(code as u64),
{
    reveal_strlit(" test failed: HTTP ");
    reveal_strlit(" test hit Cloudflare's rate limit (HTTP 429)");
    reveal_strlit("; retry after ");
    reveal_strlit(" s");
    reveal_strlit("; try again later");
    let t = status_error_text(direction, code, retry_after);
    assert(t.take(direction.len() as int) =~= direction);
    if code != 429 {
        assert(" test failed: HTTP "@.len() == 19);
        assert(t.skip(direction.len() as int + 19) =~= decimal(code as nat));
        lemma_decimal_parses(code as u64);
    }
}

/// The message for a refused transfer, from the status number.
pub fn status_error_message(direction: &str, code: u16, retry_after: Option<&str>) -> (r: String)
    ensures
        r@ == status_error_text(
            direction@,
            code,
            opt_chars(retry_after),
        ),
{
    let mut out = to_chars(direction);
    if code == 429 {
        push_str(&mut out, " test hit Cloudflare's rate limit (HTTP 429)");
        match retry_after {
            Some(s) => {
                push_str(&mut out, "; retry after ");
                let sc = to_chars(s);
                push_chars(&mut out, &sc);
                push_str(&mut out, " s");
            },
            None => {
                push_str(&mut out, "; try again later");
            },
        }
    } else {
        push_str(&mut out, " test failed: HTTP ");
        push_decimal(&mut out, code as u128);
    }
    chars_to_string(&out)
}

/// An HTTP status, as `reqwest` reports it.
#[verifier::external_type_specification]
#[verifier::external_body]
pub struct ExStatusCode(reqwest::StatusCode);

/// The number that an HTTP status holds, as `StatusCode::as_u16` returns it.
pub uninterp spec fn status_code_of(status: reqwest::StatusCode) -> u16;

/// `StatusCode::as_u16`: the number the status holds, which depends on the
/// status alone. `http` builds a `StatusCode` only from numbers in 100..=999
/// (`from_u16`, `from_bytes` and the named constants).
#[verifier::external_body]
fn status_number(status: &reqwest::StatusCode) -> (r: u16)
    ensures
        r == status_code_of(*status),
        100 <= r <= 999,
{
    status.as_u16()
}

/// The message for a transfer that the server refused with `status`.
pub fn cloudflare_status_error(
    direction: &str,
    status: reqwest::StatusCode,
    retry_after: Option<&str>,
) -> (r: String)
    ensures
        r@ == status_error_text(direction@, status_code_of(status), opt_chars(retry_after)),
        100 <= status_code_of(status) <= 999,
{
    let code = status_number(&status);
    status_error_message(direction, code, retry_after)
}

} // verus!
