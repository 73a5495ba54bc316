//! Public tunnels: the book a tunnel worker keeps of its open forwarders and
//! its live session, the steps it takes to open a tunnel, and the keys,
//! targets and links of the tunnels of shares, sites and receive cards.
//!
//! The worker itself talks to the tunnel service; here it asks what to do
//! and reports what it did.
use vstd::prelude::*;

use crate::state::{AppState, Keyed, Registry};
use crate::text::{dec, push_dec, trim, trim_seq};

verus! {

/// The message when the tunnel worker is not running.
pub const WORKER_GONE: &'static str = "内网穿透服务未启动";

/// The message when the tunnel worker does not answer in time.
pub const WORKER_TIMEOUT: &'static str = "ngrok 连接超时";

/// A forwarder that is open: the key it was opened for and its public URL.
#[derive(Debug)]
pub struct OpenTunnel {
    pub key: String,
    pub url: String,
}

impl Keyed for OpenTunnel {
    open spec fn key(&self) -> Seq<char> {
        self.key@
    }

    fn id_str(&self) -> (r: &str) {
        self.key.as_str()
    }
}

/// The book of a tunnel worker: the open forwarders, and the token of the
/// live session it keeps for reuse, if any.
pub struct TunnelTable {
    pub tunnels: Registry<OpenTunnel>,
    pub session: Option<String>,
}

/// The token a session is opened with: the given token trimmed, or the
/// empty text (take the token from the environment) when none is given.
pub open spec fn token_key_spec(authtoken: Option<Seq<char>>) -> Seq<char> {
    match authtoken {
        Some(t) => trim_seq(t),
        None => Seq::<char>::empty(),
    }
}

/// Normalizes the token a tunnel is opened with.
pub fn token_key(authtoken: Option<&str>) -> (r: String)
    ensures
        r@ == token_key_spec(
            match authtoken {
                Some(t) => Some(t@),
                None => None,
            },
        ),
{
    match authtoken {
        Some(t) => trim(t),
        None => String::new(),
    }
}

/// The first step of opening the tunnel for a key.
#[derive(Debug)]
pub enum StartStep {
    /// The key already has a tunnel: answer with its public URL.
    Existing(String),
    /// Open a forwarder on the live session, which the worker takes out of
    /// its slot.
    Forward,
    /// Close every forwarder and the live session first when
    /// `close_previous`, then connect a new session with `token` (from the
    /// environment when it is empty), then open a forwarder.
    Connect { close_previous: bool, token: String },
}

/// The public URL of the tunnel open for `key`, if any.
pub open spec fn start_reuses(t: TunnelTable, key: Seq<char>) -> Option<Seq<char>> {
    match t.tunnels.get_spec(key) {
        Some(x) => Some(x.url@),
        None => None,
    }
}

/// `after` is `before` with the forwarder for `key` at `url` recorded.
pub open spec fn opened(before: TunnelTable, after: TunnelTable, key: Seq<char>, url: Seq<char>) -> bool {
    &&& after.tunnels.get_spec(key) matches Some(x) && x.key@ == key && x.url@ == url
    &&& forall|k: Seq<char>|
        k != key ==> #[trigger] after.tunnels.get_spec(k) == before.tunnels.get_spec(k)
    &&& after.session == before.session
}

/// What `begin_start` decides for `key` and the token `tk` in the book
/// `before`, leaving the book `after`: an open tunnel is reused; a live
/// session with the same token is taken out of its slot and used; a live
/// session with another token is closed with every forwarder before a new
/// one is connected; with no live session a new one is connected.
pub open spec fn start_outcome(
    before: TunnelTable,
    after: TunnelTable,
    key: Seq<char>,
    tk: Seq<char>,
    r: StartStep,
) -> bool {
    match start_reuses(before, key) {
        Some(u) => {
            &&& r matches StartStep::Existing(x) && x@ == u
            &&& after.tunnels.records() == before.tunnels.records()
            &&& after.session == before.session
        },
        None => match before.session {
            Some(s) => if s@ == tk {
                &&& r is Forward
                &&& after.tunnels.records() == before.tunnels.records()
                &&& after.session is None
            } else {
                &&& r matches StartStep::Connect { close_previous, token } && close_previous
                    && token@ == tk
                &&& after.tunnels.records() == Seq::<OpenTunnel>::empty()
                &&& after.session is None
            },
            None => {
                &&& r matches StartStep::Connect { close_previous, token } && !close_previous
                    && token@ == tk
                &&& after.tunnels.records() == before.tunnels.records()
                &&& after.session is None
            },
        },
    }
}

impl TunnelTable {
    /// A worker with no forwarders and no session.
    pub fn new() -> (r: Self)
        ensures
            r.tunnels.records() == Seq::<OpenTunnel>::empty(),
            r.session is None,
    {
        TunnelTable { tunnels: Registry::new(), session: None }
    }

    /// Decides how to open the tunnel for `key` with the token `authtoken`,
    /// and books what the step does to the session and the forwarders.
    pub fn begin_start(&mut self, key: &str, authtoken: Option<&str>) -> (r: StartStep)
        ensures
            start_outcome(
                *old(self),
                *final(self),
                key@,
                token_key_spec(
                    match authtoken {
                        Some(t) => Some(t@),
                        None => None,
                    },
                ),
                r,
            ),
    {
        if let Some(t) = self.tunnels.get(key) {
            return StartStep::Existing(t.url.clone());
        }
        let tk = token_key(authtoken);
        let saved = self.session.take();
        match saved {
            Some(s) => {
                if crate::text::str_eq(s.as_str(), tk.as_str()) {
                    StartStep::Forward
                } else {
                    self.tunnels.clear();
                    StartStep::Connect { close_previous: true, token: tk }
                }
            },
            None => StartStep::Connect { close_previous: false, token: tk },
        }
    }

    /// Books a session connected with `token`.
    pub fn session_connected(&mut self, token: String)
        ensures
            final(self).session == Some(token),
            final(self).tunnels.records() == old(self).tunnels.records(),
    {
        self.session = Some(token);
    }

    /// Books the forwarder opened for `key` at the public URL `url`.
    pub fn forwarder_opened(&mut self, key: String, url: String)
        ensures
            opened(*old(self), *final(self), key@, url@),
    {
        self.tunnels.insert(OpenTunnel { key, url });
    }

    /// Books the closing of the forwarder for `key`; tells whether there was
    /// one to close.
    pub fn stop(&mut self, key: &str) -> (had: bool)
        ensures
            had == (old(self).tunnels.get_spec(key@) is Some),
            final(self).tunnels.get_spec(key@) is None,
            forall|k: Seq<char>|
                k != key@ ==> #[trigger] final(self).tunnels.get_spec(k) == old(
                    self,
                ).tunnels.get_spec(k),
            final(self).session == old(self).session,
    {
        let had = self.tunnels.contains(key);
        self.tunnels.remove(key);
        had
    }

    /// Books the closing of every forwarder and of the session.
    pub fn reset(&mut self)
        ensures
            final(self).tunnels.records() == Seq::<OpenTunnel>::empty(),
            final(self).session is None,
    {
        self.tunnels.clear();
        self.session = None;
    }
}

/// A tunnel that has been opened is reused: asking again for its key answers
/// with the same public URL, whatever the token.
pub proof fn lemma_opened_tunnel_is_reused(
    before: TunnelTable,
    after: TunnelTable,
    key: Seq<char>,
    url: Seq<char>,
)
    requires
        opened(before, after, key, url),
    ensures
        start_reuses(after, key) == Some(url),
{
}

/// Opening a tunnel leaves the tunnels of other keys as they were.
pub proof fn lemma_opened_keeps_others(
    before: TunnelTable,
    after: TunnelTable,
    key: Seq<char>,
    url: Seq<char>,
    other: Seq<char>,
)
    requires
        opened(before, after, key, url),
        other != key,
    ensures
        start_reuses(after, other) == start_reuses(before, other),
{
    assert(after.tunnels.get_spec(other) == before.tunnels.get_spec(other));
}

/// What `url::Url::parse` reports for a text: nothing when it parses, else
/// the message of its error.
pub uninterp spec fn url_parse_error(s: Seq<char>) -> Option<Seq<char>>;

/// `url::Url::parse`: parses an absolute URL. The contract names the outcome
/// (success, or the text of the error), a function of the input alone; what
/// the parser accepts is not restated here.
#[verifier::external_body]
fn parse_url(s: &str) -> (r: Result<url::Url, String>)
    ensures
        r is Ok == (url_parse_error(s@) is None),
        r matches Err(e) ==> url_parse_error(s@) == Some(e@),
{
    url::Url::parse(s).map_err(|e| e.to_string())
}

/// The declaration of `url::Url`, which a tunnel forwards to.
#[verifier::external_type_specification]
#[verifier::external_body]
pub struct ExUrl(url::Url);

/// The address a tunnel forwards to, or the message refusing it.
pub fn forward_url(target: &str) -> (r: Result<url::Url, String>)
    ensures
        r is Ok == (url_parse_error(target@) is None),
        r matches Err(e) ==> url_parse_error(target@) matches Some(t) && e@ == "转发地址无效: "@
            + t,
{
    match parse_url(target) {
        Ok(u) => Ok(u),
        Err(e) => {
            let mut msg = String::from_str("转发地址无效: ");
            msg.append(e.as_str());
            Err(msg)
        },
    }
}

/// The metadata a forwarder for `key` is tagged with.
pub fn tunnel_metadata(key: &str) -> (r: String)
    ensures
        r@ == "rv-netshare:"@ + key@,
{
    let mut r = String::from_str("rv-netshare:");
    r.append(key);
    r
}

/// What failed while talking to the tunnel service.
#[derive(Clone, Copy, Debug, PartialEq, Eq, Structural)]
pub enum TunnelFailure {
    Connect,
    Forward,
    Close,
}

/// The prefix of the message of each failure.
pub open spec fn failure_prefix(f: TunnelFailure) -> Seq<char> {
    match f {
        TunnelFailure::Connect => "ngrok 连接失败: "@,
        TunnelFailure::Forward => "ngrok 隧道创建失败: "@,
        TunnelFailure::Close => "关闭隧道失败: "@,
    }
}

/// The message of a failure, with the service's own words `detail`.
pub fn failure_message(f: TunnelFailure, detail: &str) -> (r: String)
    ensures
        r@ == failure_prefix(f) + detail@,
{
    let mut r = match f {
        TunnelFailure::Connect => String::from_str("ngrok 连接失败: "),
        TunnelFailure::Forward => String::from_str("ngrok 隧道创建失败: "),
        TunnelFailure::Close => String::from_str("关闭隧道失败: "),
    };
    r.append(detail);
    r
}

// ---------------------------------------------------------------------------
// Keys, targets and links
// ---------------------------------------------------------------------------
/// The tunnel key of a share.
pub fn share_tunnel_key(id: &str) -> (r: String)
    ensures
        r@ == "share:"@ + id@,
{
    let mut r = String::from_str("share:");
    r.append(id);
    r
}

/// The tunnel key of a site.
pub fn site_tunnel_key(id: &str) -> (r: String)
    ensures
        r@ == "site:"@ + id@,
{
    let mut r = String::from_str("site:");
    r.append(id);
    r
}

/// The tunnel key of a receive card.
pub fn receive_tunnel_key(id: &str) -> (r: String)
    ensures
        r@ == "receive:"@ + id@,
{
    let mut r = String::from_str("receive:");
    r.append(id);
    r
}

/// The local address a tunnel to `port` forwards to.
pub open spec fn local_target_spec(port: u16) -> Seq<char> {
    "http://127.0.0.1:"@ + dec(port as nat)
}

/// The local address a tunnel to `port` forwards to.
pub fn local_target(port: u16) -> (r: String)
    ensures
        r@ == local_target_spec(port),
{
    let mut r = String::from_str("http://127.0.0.1:");
    push_dec(&mut r, port as u64);
    r
}

/// The public link of a share behind the tunnel at `root`.
pub fn share_link(root: &str, id: &str) -> (r: String)
    ensures
        r@ == root@ + "/s/"@ + id@,
{
    let mut r = String::from_str(root);
    r.append("/s/");
    r.append(id);
    r
}

/// The public link of a receive card behind the tunnel at `root`.
pub fn receive_link(root: &str, id: &str) -> (r: String)
    ensures
        r@ == root@ + "/r/"@ + id@,
{
    let mut r = String::from_str(root);
    r.append("/r/");
    r.append(id);
    r
}

/// The key and local target of the tunnel of the share `id`, or the
/// message when there is no such share.
pub fn share_tunnel_request(state: &AppState, id: &str) -> (r: Result<(String, String), String>)
    ensures
        match state.shares.get_spec(id@) {
            None => r matches Err(e) && e@ == "分享不存在"@,
            Some(_) => r matches Ok((k, t)) && k@ == "share:"@ + id@ && t@ == local_target_spec(
                state.port,
            ),
        },
{
    if !state.shares.contains(id) {
        return Err(String::from_str("分享不存在"));
    }
    Ok((share_tunnel_key(id), local_target(state.port)))
}

/// The key and local target of the tunnel of the site `id`, or the message
/// when there is no such site or it has no port.
pub fn site_tunnel_request(state: &AppState, id: &str) -> (r: Result<(String, String), String>)
    ensures
        match state.sites.get_spec(id@) {
            None => r matches Err(e) && e@ == "站点不存在"@,
            Some(s) => if s.port == 0 {
                r matches Err(e) && e@ == "站点未启动"@
            } else {
                r matches Ok((k, t)) && k@ == "site:"@ + id@ && t@ == local_target_spec(s.port)
            },
        },
{
    let site = match state.sites.get(id) {
        Some(s) => s,
        None => {
            return Err(String::from_str("站点不存在"));
        },
    };
    if site.port == 0 {
        return Err(String::from_str("站点未启动"));
    }
    Ok((site_tunnel_key(id), local_target(site.port)))
}

/// The key and local target of the tunnel of the receive card `id`, or the
/// message when there is no such card.
pub fn receive_tunnel_request(state: &AppState, id: &str) -> (r: Result<(String, String), String>)
    ensures
        match state.receivers.get_spec(id@) {
            None => r matches Err(e) && e@ == "接收卡片不存在"@,
            Some(_) => r matches Ok((k, t)) && k@ == "receive:"@ + id@ && t@ == local_target_spec(
                state.port,
            ),
        },
{
    if !state.receivers.contains(id) {
        return Err(String::from_str("接收卡片不存在"));
    }
    Ok((receive_tunnel_key(id), local_target(state.port)))
}

} // verus!
