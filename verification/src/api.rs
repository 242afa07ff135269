//! Requests to the CLOB `/trades` endpoint: what is sent and which replies count.
//! The HTTP exchange itself is made by the host.

use vstd::prelude::*;

use crate::abi::{decimal_value, lemma_decimal_digits_value};
use crate::text::{lemma_decimal_text_bytes, decimal_text, push_decimal_text, utf8_lossy, utf8_lossy_spec};
use crate::types::Trade;

verus! {

pub const DEFAULT_CLOB_BASE: &'static str = "https://clob.polymarket.com";

/// The base URL a scan talks to: the override when one is given, else the default.
pub fn clob_base_or_default<'a>(clob_base: Option<&'a str>) -> (r: &'a str)
    ensures
        r@ == (match clob_base {
            Some(b) => b@,
            None => DEFAULT_CLOB_BASE@,
        }),
{
    match clob_base {
        Some(b) => b,
        None => DEFAULT_CLOB_BASE,
    }
}

/// Path and query of the request for trades made by `wallet` (as maker)
/// since `after_ms`, with the time given in whole seconds.
pub open spec fn trades_path_spec(wallet: Seq<char>, after_ms: u64) -> Seq<char> {
    "/trades?maker_address="@ + wallet + "&after="@ + decimal_text((after_ms / 1000) as nat)
}

/// `/trades?maker_address={wallet}&after={after_ms / 1000}`.
pub fn trades_path(wallet: &str, after_ms: u64) -> (path: String)
    ensures
        path@ == trades_path_spec(wallet@, after_ms),
{
    let after_s = after_ms / 1000;
    let mut path = String::new();
    path.append("/trades?maker_address=");
    path.append(wallet);
    path.append("&after=");
    push_decimal_text(&mut path, after_s);
    path
}

/// The full URL of a request: base URL followed by the path.
pub fn request_url(clob_base: &str, path: &str) -> (url: String)
    ensures
        url@ == clob_base@ + path@,
{
    let mut url = String::new();
    url.append(clob_base);
    url.append(path);
    url
}

/// JSON object of request headers: `POLY_API_KEY` when an API key is given,
/// else no header.
pub open spec fn trades_headers_spec(api_key: Option<Seq<char>>) -> Seq<char> {
    match api_key {
        Some(key) => "{\"POLY_API_KEY\":\""@ + key + "\"}"@,
        None => "{}"@,
    }
}

/// Headers of a `/trades` request.
pub fn trades_headers(api_key: Option<&str>) -> (headers: String)
    ensures
        headers@ == trades_headers_spec(
            match api_key {
                Some(k) => Some(k@),
                None => None,
            },
        ),
{
    let mut headers = String::new();
    match api_key {
        Some(key) => {
            headers.append("{\"POLY_API_KEY\":\"");
            headers.append(key);
            headers.append("\"}");
        },
        None => {
            headers.append("{}");
        },
    }
    headers
}

/// Whether an HTTP status is a success (2xx); any other status fails the fetch.
pub fn is_success_status(status: u16) -> (ok: bool)
    ensures
        ok == (200 <= status < 300),
{
    !(status < 200 || status >= 300)
}

/// The error of a `/trades` request that the host could not make.
pub fn transport_failure(path: &str, error: &str) -> (m: String)
    ensures
        m@ == "GET "@ + path@ + ": "@ + error@,
{
    let mut m = String::new();
    m.append("GET ");
    m.append(path);
    m.append(": ");
    m.append(error);
    m
}

/// The error of a `/trades` reply whose status is not a success: the status
/// and the reply body read as (lossy) UTF-8.
pub fn http_status_failure(path: &str, status: u16, body: &[u8]) -> (m: String)
    ensures
        m@ == "GET "@ + path@ + " returned HTTP "@ + decimal_text(status as nat) + ": "@
            + utf8_lossy_spec(body@),
{
    let mut m = String::new();
    m.append("GET ");
    m.append(path);
    m.append(" returned HTTP ");
    push_decimal_text(&mut m, status as u64);
    m.append(": ");
    let text = utf8_lossy(body);
    m.append(text.as_str());
    m
}

/// The message a scan stops with when the fetch for `wallet` failed with `error`.
pub open spec fn fetch_failure_message(wallet: Seq<char>, error: Seq<char>) -> Seq<char> {
    "fetch_trades "@ + wallet + ": "@ + error
}

/// The trades a scan has gathered so far, the next wallet to fetch, and the
/// message of a failed fetch, if one failed.
pub struct ScanState {
    pub picks: Vec<Trade>,
    pub next_wallet: usize,
    pub failure: Option<String>,
}

/// What a scan does next.
#[derive(Debug)]
pub enum ScanAction {
    /// Fetch the trades of the wallet at this index of the watch list.
    FetchWallet(usize),
    /// Every wallet has been fetched; read the clock and report the picks.
    Finish,
    /// A fetch failed: stop with this error, report nothing and keep the old
    /// sync time.
    Abort(String),
}

impl ScanState {
    /// A scan that has fetched nothing yet.
    pub fn new() -> (s: ScanState)
        ensures
            s.picks@ == Seq::<Trade>::empty(),
            s.next_wallet == 0,
            s.failure is None,
    {
        ScanState { picks: Vec::new(), next_wallet: 0, failure: None }
    }

    /// The next step of a scan over `n_wallets` watched wallets.
    pub fn next_action(&self, n_wallets: usize) -> (a: ScanAction)
        ensures
            self.failure matches Some(m) ==> a == ScanAction::Abort(m),
            self.failure is None && self.next_wallet < n_wallets ==> a == ScanAction::FetchWallet(
                self.next_wallet,
            ),
            self.failure is None && self.next_wallet >= n_wallets ==> a == ScanAction::Finish,
    {
        match &self.failure {
            Some(m) => ScanAction::Abort(m.clone()),
            None => {
                if self.next_wallet < n_wallets {
                    ScanAction::FetchWallet(self.next_wallet)
                } else {
                    ScanAction::Finish
                }
            },
        }
    }

    /// Record the trades fetched for the current wallet and move to the next one.
    pub fn record_trades(&mut self, trades: Vec<Trade>)
        requires
            old(self).next_wallet < usize::MAX,
        ensures
            final(self).picks@ == old(self).picks@ + trades@,
            final(self).next_wallet == old(self).next_wallet + 1,
            final(self).failure == old(self).failure,
    {
        let mut trades = trades;
        self.picks.append(&mut trades);
        self.next_wallet = self.next_wallet + 1;
    }

    /// Record that the fetch for `wallet` failed with `error`; the scan then aborts.
    pub fn record_failure(&mut self, wallet: &str, error: &str)
        ensures
            final(self).failure matches Some(m) && m@ == fetch_failure_message(wallet@, error@),
            final(self).picks == old(self).picks,
            final(self).next_wallet == old(self).next_wallet,
    {
        let mut message = String::new();
        message.append("fetch_trades ");
        message.append(wallet);
        message.append(": ");
        message.append(error);
        self.failure = Some(message);
    }
}

/// Law: the `/trades` path is the fixed prefix, then the wallet text whole
/// and unchanged, then `&after=` and the decimal number of whole seconds in
/// `after_ms`.
pub proof fn law_trades_path_layout(wallet: Seq<char>, after_ms: u64)
    ensures
        ({
            let p = trades_path_spec(wallet, after_ms);
            let t = decimal_text((after_ms / 1000) as nat);
            &&& p.len() == 22 + wallet.len() as int + 7 + t.len()
            &&& p.subrange(0, 22) == "/trades?maker_address="@
            &&& p.subrange(22, 22 + wallet.len() as int) == wallet
            &&& p.subrange(22 + wallet.len() as int, 29 + wallet.len() as int) == "&after="@
            &&& p.subrange(29 + wallet.len() as int, p.len() as int) == t
            &&& decimal_value(t.map_values(|c: char| c as u8)) == after_ms / 1000
        }),
{
    reveal_strlit("/trades?maker_address=");
    reveal_strlit("&after=");
    let p = trades_path_spec(wallet, after_ms);
    let t = decimal_text((after_ms / 1000) as nat);
    let a = "/trades?maker_address="@;
    let b = "&after="@;
    assert(a.len() == 22);
    assert(b.len() == 7);
    assert(p.subrange(0, 22) =~= a);
    assert(p.subrange(22, 22 + wallet.len() as int) =~= wallet);
    assert(p.subrange(22 + wallet.len() as int, 29 + wallet.len() as int) =~= b);
    assert(p.subrange(29 + wallet.len() as int, p.len() as int) =~= t);
    lemma_decimal_text_bytes((after_ms / 1000) as nat);
    lemma_decimal_digits_value((after_ms / 1000) as nat);
}

/// Law: the request URL is the base URL followed by the path, both whole.
pub proof fn law_request_url_layout(base: Seq<char>, path: Seq<char>)
    ensures
        (base + path).len() == base.len() + path.len(),
        (base + path).subrange(0, base.len() as int) == base,
        (base + path).subrange(base.len() as int, (base + path).len() as int) == path,
{
    assert((base + path).subrange(0, base.len() as int) =~= base);
    assert((base + path).subrange(base.len() as int, (base + path).len() as int) =~= path);
}

/// Law: with an API key the headers are `{"POLY_API_KEY":"` ‖ key ‖ `"}`,
/// the key whole and unchanged; without one they are `{}`.
pub proof fn law_trades_headers_layout(key: Seq<char>)
    ensures
        ({
            let h = trades_headers_spec(Some(key));
            &&& h.len() == 17 + key.len() + 2
            &&& h.subrange(17, 17 + key.len() as int) == key
            &&& trades_headers_spec(None).len() == 2
        }),
{
    reveal_strlit("{\"POLY_API_KEY\":\"");
    reveal_strlit("\"}");
    reveal_strlit("{}");
    let h = trades_headers_spec(Some(key));
    assert(h.subrange(17, 17 + key.len() as int) =~= key);
}

} // verus!
