//! Settings and the rules applied to what the user enters: the ports of the
//! share server and of the sites, the save and receive directories, the
//! common password and the tunnel token, and pasted paths.
use vstd::prelude::*;

use crate::order::{is_sorted_order, key_views, sorted_order};
use crate::state::{Registry, SiteSession};
use crate::text::{
    chars_of, has_prefix, push_range, range_eq, string_from, trim, trim_range, trim_seq,
};

verus! {

/// Port of the share server unless configured otherwise.
pub const DEFAULT_PORT: u16 = 48721;

/// First port tried for site servers unless configured otherwise.
pub const DEFAULT_SITE_PORT: u16 = 48800;

/// How many ports above `DEFAULT_PORT` are tried when it is busy: the share
/// server falls back as far as port 48799.
pub const PORT_FALLBACK_LIMIT: u16 = 78;

/// The settings stored in `config.json`.
#[derive(Clone, Debug)]
pub struct AppConfig {
    pub save_dir: Option<String>,
    pub share_port: Option<u16>,
    pub site_port: Option<u16>,
    pub ngrok_authtoken: Option<String>,
    pub receive_common_password: Option<String>,
    pub receive_dir: Option<String>,
}

impl AppConfig {
    /// The settings of a fresh installation: nothing configured.
    pub fn empty() -> (r: AppConfig)
        ensures
            r.save_dir is None,
            r.share_port is None,
            r.site_port is None,
            r.ngrok_authtoken is None,
            r.receive_common_password is None,
            r.receive_dir is None,
    {
        AppConfig {
            save_dir: None,
            share_port: None,
            site_port: None,
            ngrok_authtoken: None,
            receive_common_password: None,
            receive_dir: None,
        }
    }
}

// ---------------------------------------------------------------------------
// Ports
// ---------------------------------------------------------------------------
/// A configured port, with a missing or zero port meaning `default`.
pub open spec fn port_or_default(configured: Option<u16>, default: u16) -> u16 {
    match configured {
        Some(p) => if p == 0 {
            default
        } else {
            p
        },
        None => default,
    }
}

/// The port the share server should listen on.
pub fn configured_share_port(cfg: &AppConfig) -> (p: u16)
    ensures
        p == port_or_default(cfg.share_port, DEFAULT_PORT),
{
    let port = match cfg.share_port {
        Some(p) => p,
        None => DEFAULT_PORT,
    };
    if port == 0 {
        DEFAULT_PORT
    } else {
        port
    }
}

/// The first port tried for site servers.
pub fn configured_site_port(cfg: &AppConfig) -> (p: u16)
    ensures
        p == port_or_default(cfg.site_port, DEFAULT_SITE_PORT),
{
    let port = match cfg.site_port {
        Some(p) => p,
        None => DEFAULT_SITE_PORT,
    };
    if port == 0 {
        DEFAULT_SITE_PORT
    } else {
        port
    }
}

/// The ports tried in turn for the share server: the configured one first
/// (when it is not the default), then `DEFAULT_PORT` up to
/// `DEFAULT_PORT + PORT_FALLBACK_LIMIT`.
pub open spec fn bind_candidates_spec(base: u16) -> Seq<u16> {
    let fallback = Seq::new(
        (PORT_FALLBACK_LIMIT + 1) as nat,
        |i: int| (DEFAULT_PORT + i) as u16,
    );
    if base != DEFAULT_PORT {
        seq![base] + fallback
    } else {
        fallback
    }
}

/// The ports to try, in order, for the share server configured on `base`.
pub fn bind_candidates(base: u16) -> (r: Vec<u16>)
    ensures
        r@ == bind_candidates_spec(base),
{
    let mut r: Vec<u16> = Vec::new();
    if base != DEFAULT_PORT {
        r.push(base);
    }
    let ghost head = r@;
    let end = DEFAULT_PORT.saturating_add(PORT_FALLBACK_LIMIT);
    let mut port = DEFAULT_PORT;
    while port <= end
        invariant
            DEFAULT_PORT <= port <= end + 1,
            end == DEFAULT_PORT + PORT_FALLBACK_LIMIT,
            r@ == head + Seq::new((port - DEFAULT_PORT) as nat, |i: int| (DEFAULT_PORT + i) as u16),
        decreases end + 1 - port,
    {
        r.push(port);
        port = port + 1;
        assert(r@ =~= head + Seq::new(
            (port - DEFAULT_PORT) as nat,
            |i: int| (DEFAULT_PORT + i) as u16,
        ));
    }
    assert(r@ =~= bind_candidates_spec(base));
    r
}

/// The first port from `candidate` up that `used` does not hold; the search
/// stops at the highest port.
pub open spec fn free_port_from(candidate: u16, used: Seq<u16>) -> u16
    decreases u16::MAX - candidate,
{
    if used.contains(candidate) && candidate < u16::MAX {
        free_port_from((candidate + 1) as u16, used)
    } else {
        candidate
    }
}

/// The port found for a new site is at least the one asked for, and no
/// other site uses it unless the search ran into the highest port.
pub proof fn lemma_free_port_unused(candidate: u16, used: Seq<u16>)
    ensures
        free_port_from(candidate, used) >= candidate,
        !used.contains(free_port_from(candidate, used)) || free_port_from(candidate, used)
            == u16::MAX,
    decreases u16::MAX - candidate,
{
    if used.contains(candidate) && candidate < u16::MAX {
        lemma_free_port_unused((candidate + 1) as u16, used);
    }
}

/// The port for a new site server: the first from `base` up that no other
/// site uses.
pub fn next_free_port(base: u16, used: &[u16]) -> (p: u16)
    ensures
        p == free_port_from(base, used@),
{
    let mut candidate = base;
    while candidate < u16::MAX && contains_port(used, candidate)
        invariant
            free_port_from(candidate, used@) == free_port_from(base, used@),
        decreases u16::MAX - candidate,
    {
        candidate = candidate + 1;
    }
    candidate
}

fn contains_port(used: &[u16], port: u16) -> (b: bool)
    ensures
        b == used@.contains(port),
{
    let mut i: usize = 0;
    while i < used.len()
        invariant
            i <= used@.len(),
            forall|j: int| 0 <= j < i ==> used@[j] != port,
        decreases used.len() - i,
    {
        if used[i] == port {
            assert(used@[i as int] == port);
            return true;
        }
        i = i + 1;
    }
    false
}

/// The ports of the sites other than `except`, in order, leaving out
/// unassigned (zero) ones.
pub open spec fn used_ports(sites: Seq<crate::state::SiteSession>, except: Seq<char>) -> Seq<u16>
    decreases sites.len(),
{
    if sites.len() == 0 {
        Seq::<u16>::empty()
    } else if sites.last().id@ != except && sites.last().port != 0 {
        used_ports(sites.drop_last(), except).push(sites.last().port)
    } else {
        used_ports(sites.drop_last(), except)
    }
}

/// The ports taken by the sites other than `except`.
pub fn ports_in_use(sites: &[crate::state::SiteSession], except: &str) -> (r: Vec<u16>)
    ensures
        r@ == used_ports(sites@, except@),
{
    let mut r: Vec<u16> = Vec::new();
    let mut i: usize = 0;
    while i < sites.len()
        invariant
            i <= sites@.len(),
            r@ == used_ports(sites@.take(i as int), except@),
        decreases sites.len() - i,
    {
        let ghost t = sites@.take(i + 1);
        assert(t.drop_last() =~= sites@.take(i as int));
        let site = &sites[i];
        if !crate::text::str_eq(site.id.as_str(), except) && site.port != 0 {
            r.push(site.port);
        }
        i = i + 1;
    }
    assert(sites@.take(i as int) =~= sites@);
    r
}

/// Whether the site at position `i` gets a port when the ports start at
/// `port`.
pub open spec fn offset_fits(port: u16, i: int) -> bool {
    port + (i % 65536) <= u16::MAX
}

/// The ports given to `count` sites, ordered, when the site ports start at
/// `port`: `port`, `port + 1`, ...; `None` when one would pass the highest
/// port. (The offset of each site is taken as a 16-bit number.)
pub open spec fn site_ports_spec(port: u16, count: nat) -> Option<Seq<u16>> {
    if exists|i: int| 0 <= i < count && !#[trigger] offset_fits(port, i) {
        None
    } else {
        Some(Seq::new(count, |i: int| (port + (i % 65536)) as u16))
    }
}

/// The ports for `count` sites starting at `port`, or the error shown when
/// they do not fit.
pub fn site_ports(port: u16, count: usize) -> (r: Result<Vec<u16>, String>)
    ensures
        match site_ports_spec(port, count as nat) {
            Some(ps) => r matches Ok(v) && v@ == ps,
            None => r matches Err(e) && e@ == "端口超出范围"@,
        },
{
    let mut r: Vec<u16> = Vec::new();
    let mut idx: usize = 0;
    while idx < count
        invariant
            idx <= count,
            r@ == Seq::new(idx as nat, |i: int| (port + (i % 65536)) as u16),
            forall|i: int| 0 <= i < idx ==> #[trigger] offset_fits(port, i),
        decreases count - idx,
    {
        let off = (idx % 65536) as u16;
        match port.checked_add(off) {
            Some(p) => {
                r.push(p);
            },
            None => {
                assert(!offset_fits(port, idx as int));
                return Err(String::from_str("端口超出范围"));
            },
        }
        idx = idx + 1;
        assert(r@ =~= Seq::new(idx as nat, |i: int| (port + (i % 65536)) as u16));
    }
    Ok(r)
}

/// The message when `port` cannot be bound.
pub fn port_busy_message(port: u16) -> (r: String)
    ensures
        r@ == "端口 "@ + crate::text::dec(port as nat) + " 被占用，无法使用"@,
{
    let mut r = String::from_str("端口 ");
    crate::text::push_dec(&mut r, port as u64);
    r.append(" 被占用，无法使用");
    r
}

/// The sort key of a site when ports are handed out: its creation time,
/// then its token.
pub open spec fn site_keys(sites: Seq<SiteSession>) -> Seq<(i64, Seq<char>)> {
    sites.map_values(|s: SiteSession| (s.created_at, s.id@))
}

/// The tokens of the sites, oldest first (ties by token): the order in which
/// consecutive ports are handed out.
pub fn sites_by_age(sites: &[SiteSession]) -> (r: Vec<String>)
    ensures
        exists|p: Seq<usize>|
            #[trigger] is_sorted_order(site_keys(sites@), p) && r@.len() == p.len() && forall|
                i: int,
            |
                0 <= i < p.len() ==> #[trigger] r@[i]@ == sites@[p[i] as int].id@,
{
    let mut keys: Vec<(i64, String)> = Vec::new();
    let mut i: usize = 0;
    while i < sites.len()
        invariant
            i <= sites@.len(),
            keys@.len() == i,
            forall|j: int| 0 <= j < i ==> #[trigger] key_views(keys@)[j] == (
                sites@[j].created_at,
                sites@[j].id@,
            ),
        decreases sites.len() - i,
    {
        let ghost before = keys@;
        keys.push((sites[i].created_at, sites[i].id.clone()));
        proof {
            assert forall|j: int| 0 <= j < i + 1 implies #[trigger] key_views(keys@)[j] == (
                sites@[j].created_at,
                sites@[j].id@,
            ) by {
                if j < i {
                    assert(keys@[j] == before[j]);
                    assert(key_views(before)[j] == (sites@[j].created_at, sites@[j].id@));
                }
            }
        }
        i = i + 1;
    }
    assert(key_views(keys@) =~= site_keys(sites@));
    let order = sorted_order(&keys);
    let mut out: Vec<String> = Vec::new();
    let mut j: usize = 0;
    while j < order.len()
        invariant
            is_sorted_order(site_keys(sites@), order@),
            j <= order@.len(),
            out@.len() == j,
            forall|a: int| 0 <= a < j ==> #[trigger] out@[a]@ == sites@[order@[a] as int].id@,
        decreases order.len() - j,
    {
        out.push(sites[order[j]].id.clone());
        j = j + 1;
    }
    out
}

/// Gives the site `id` the port `port`; tells whether there was such a site
/// (nothing changes when there is none).
pub fn set_port_of_site(sites: &mut Registry<SiteSession>, id: &str, port: u16) -> (found: bool)
    ensures
        found == (old(sites).get_spec(id@) is Some),
        match old(sites).get_spec(id@) {
            None => final(sites).records() == old(sites).records(),
            Some(s) => final(sites).get_spec(id@) matches Some(x) && x.id == s.id && x.name == s.name
                && x.path == s.path && x.size == s.size && x.total_bytes == s.total_bytes
                && x.created_at == s.created_at && x.port == port,
        },
        forall|other: Seq<char>|
            other != id@ ==> #[trigger] final(sites).get_spec(other) == old(sites).get_spec(other),
{
    let mut site = match sites.get(id) {
        Some(s) => s.duplicate(),
        None => {
            return false;
        },
    };
    proof {
        crate::state::lemma_lookup_key(old(sites).records(), id@);
    }
    site.port = port;
    sites.insert(site);
    true
}

/// A requested port; zero is refused.
pub fn check_port(port: u16) -> (r: Result<u16, String>)
    ensures
        port == 0 ==> (r matches Err(e) && e@ == "端口无效"@),
        port != 0 ==> r == Ok::<u16, String>(port),
{
    if port == 0 {
        Err(String::from_str("端口无效"))
    } else {
        Ok(port)
    }
}

// ---------------------------------------------------------------------------
// Directories and passwords
// ---------------------------------------------------------------------------
/// An optional setting with whitespace trimmed, absent when blank.
pub open spec fn trimmed_setting(s: Option<String>) -> Option<Seq<char>> {
    match s {
        Some(x) => if trim_seq(x@).len() == 0 {
            None
        } else {
            Some(trim_seq(x@))
        },
        None => None,
    }
}

/// The common password of receive cards, trimmed; absent when blank.
pub fn receive_common_password(cfg: &AppConfig) -> (r: Option<String>)
    ensures
        match trimmed_setting(cfg.receive_common_password) {
            Some(p) => r matches Some(x) && x@ == p,
            None => r is None,
        },
{
    match &cfg.receive_common_password {
        Some(p) => {
            let t = trim(p.as_str());
            if t.as_str().is_empty() {
                None
            } else {
                Some(t)
            }
        },
        None => None,
    }
}

/// The directory receive cards save into: the configured one when set, else
/// `receive` inside the data directory, joined with the platform's
/// separator.
pub fn receive_root_dir(cfg: &AppConfig, data_dir: &str) -> (r: String)
    ensures
        match cfg.receive_dir {
            Some(d) => d@.len() > 0 ==> r@ == d@,
            None => true,
        },
        (match cfg.receive_dir {
            Some(d) => d@.len() == 0,
            None => true,
        }) && !data_dir@.contains('?') ==> crate::paths::is_join_of(r@, data_dir@, "receive"@),
{
    proof {
        reveal_strlit("receive");
        let n = "receive"@;
        assert(forall|i: int| 0 <= i < n.len() ==> #[trigger] n[i] != '/' && n[i] != '\\' && n[i]
            != ':' && n[i] != '.');
        assert(crate::paths::plain_name(n));
    }
    match &cfg.receive_dir {
        Some(d) => {
            if !d.as_str().is_empty() {
                return d.clone();
            }
        },
        None => {},
    }
    crate::paths::path_join(data_dir, "receive")
}

/// The directory download history is saved in: the configured save
/// directory when it is set and exists (`save_dir_exists`), else `data_dir`.
pub fn resolve_data_dir(cfg: &AppConfig, save_dir_exists: bool, data_dir: &str) -> (r: String)
    ensures
        r@ == match cfg.save_dir {
            Some(d) => if d@.len() > 0 && save_dir_exists {
                d@
            } else {
                data_dir@
            },
            None => data_dir@,
        },
{
    match &cfg.save_dir {
        Some(d) => {
            if !d.as_str().is_empty() && save_dir_exists {
                return d.clone();
            }
        },
        None => {},
    }
    String::from_str(data_dir)
}

/// A setting entered by the user: trimmed, and absent when blank.
pub fn trimmed_input(s: &str) -> (r: Option<String>)
    ensures
        trim_seq(s@).len() == 0 ==> r is None,
        trim_seq(s@).len() > 0 ==> (r matches Some(x) && x@ == trim_seq(s@)),
{
    let t = trim(s);
    if t.as_str().is_empty() {
        None
    } else {
        Some(t)
    }
}

/// Stores the common password of receive cards (blank clears it).
pub fn set_receive_common_password(cfg: &mut AppConfig, password: &str)
    ensures
        trim_seq(password@).len() == 0 ==> final(cfg).receive_common_password is None,
        trim_seq(password@).len() > 0 ==> (final(cfg).receive_common_password matches Some(x)
            && x@ == trim_seq(password@)),
        final(cfg).save_dir == old(cfg).save_dir,
        final(cfg).share_port == old(cfg).share_port,
        final(cfg).site_port == old(cfg).site_port,
        final(cfg).ngrok_authtoken == old(cfg).ngrok_authtoken,
        final(cfg).receive_dir == old(cfg).receive_dir,
{
    cfg.receive_common_password = trimmed_input(password);
}

/// Stores the ngrok authtoken (blank clears it). Returns whether it changed,
/// in which case the open tunnels must be reset.
pub fn set_ngrok_authtoken(cfg: &mut AppConfig, token: &str) -> (changed: bool)
    ensures
        ({
            let next: Option<Seq<char>> = if trim_seq(token@).len() == 0 {
                None
            } else {
                Some(trim_seq(token@))
            };
            let before: Option<Seq<char>> = match old(cfg).ngrok_authtoken {
                Some(t) => Some(t@),
                None => None,
            };
            &&& changed == (before != next)
            &&& match next {
                None => final(cfg).ngrok_authtoken is None,
                Some(t) => final(cfg).ngrok_authtoken matches Some(x) && x@ == t,
            }
        }),
        final(cfg).save_dir == old(cfg).save_dir,
        final(cfg).share_port == old(cfg).share_port,
        final(cfg).site_port == old(cfg).site_port,
        final(cfg).receive_common_password == old(cfg).receive_common_password,
        final(cfg).receive_dir == old(cfg).receive_dir,
{
    let next = trimmed_input(token);
    let changed = match (&cfg.ngrok_authtoken, &next) {
        (Some(a), Some(b)) => !crate::text::str_eq(a.as_str(), b.as_str()),
        (None, None) => false,
        _ => true,
    };
    if changed {
        cfg.ngrok_authtoken = next;
    }
    changed
}

// ---------------------------------------------------------------------------
// Paths entered by the user
// ---------------------------------------------------------------------------
/// `s` trimmed, without one pair of matching surrounding quotes (and the
/// whitespace inside them).
pub open spec fn strip_quotes_spec(s: Seq<char>) -> Seq<char> {
    let t = trim_seq(s);
    if t.len() >= 2 && ((t[0] == '"' && t.last() == '"') || (t[0] == '\'' && t.last()
        == '\'')) {
        trim_seq(t.subrange(1, t.len() - 1))
    } else {
        t
    }
}

/// Removes whitespace and one pair of surrounding quotes from a pasted path.
pub fn strip_quotes(s: &str) -> (r: String)
    ensures
        r@ == strip_quotes_spec(s@),
{
    let v = chars_of(s);
    assert(v@.subrange(0, v.len() as int) =~= s@);
    let (lo, hi) = trim_range(&v, 0, v.len());
    if hi - lo >= 2 && ((v[lo] == '"' && v[hi - 1] == '"') || (v[lo] == '\'' && v[hi - 1]
        == '\'')) {
        let (a, b) = trim_range(&v, lo + 1, hi - 1);
        assert(v@.subrange(lo as int, hi as int).subrange(1, (hi - lo - 1) as int) =~= v@.subrange(
            lo + 1,
            hi - 1,
        ));
        string_from(&v, a, b)
    } else {
        string_from(&v, lo, hi)
    }
}

/// One entry of a list of pasted paths: trimmed and unquoted, or `None`
/// when blank.
pub fn share_path_input(raw: &str) -> (r: Option<String>)
    ensures
        trim_seq(raw@).len() == 0 ==> r is None,
        trim_seq(raw@).len() > 0 ==> (r matches Some(p) && p@ == strip_quotes_spec(trim_seq(raw@))),
{
    let t = trim(raw);
    if t.as_str().is_empty() {
        None
    } else {
        Some(strip_quotes(t.as_str()))
    }
}

/// The Windows extended-length prefix for UNC paths.
pub open spec fn unc_prefix() -> Seq<char> {
    "\\\\?\\UNC\\"@
}

/// The Windows extended-length prefix.
pub open spec fn verbatim_prefix() -> Seq<char> {
    "\\\\?\\"@
}

/// A path without the Windows `\\?\` prefix that `canonicalize` adds
/// (`\\?\UNC\server\share` becomes `\\server\share`).
pub open spec fn strip_extended_prefix_spec(p: Seq<char>) -> Seq<char> {
    if has_prefix(p, unc_prefix()) {
        "\\\\"@ + p.skip(unc_prefix().len() as int)
    } else if has_prefix(p, verbatim_prefix()) {
        p.skip(verbatim_prefix().len() as int)
    } else {
        p
    }
}

fn starts_with(v: &Vec<char>, w: &Vec<char>) -> (b: bool)
    ensures
        b == has_prefix(v@, w@),
{
    if w.len() > v.len() {
        return false;
    }
    let r = range_eq(v, 0, w.len(), w);
    assert(v@.subrange(0, w.len() as int) =~= v@.take(w.len() as int));
    r
}

/// Strips the Windows extended-length prefix before a path is stored,
/// shown, or sent back to the UI.
pub fn strip_extended_prefix(path: &str) -> (r: String)
    ensures
        r@ == strip_extended_prefix_spec(path@),
{
    let v = chars_of(path);
    let unc = chars_of("\\\\?\\UNC\\");
    let verbatim = chars_of("\\\\?\\");
    if starts_with(&v, &unc) {
        let mut out = String::from_str("\\\\");
        push_range(&mut out, &v, unc.len(), v.len());
        assert(v@.subrange(unc.len() as int, v.len() as int) =~= v@.skip(unc.len() as int));
        out
    } else if starts_with(&v, &verbatim) {
        let out = string_from(&v, verbatim.len(), v.len());
        assert(v@.subrange(verbatim.len() as int, v.len() as int) =~= v@.skip(
            verbatim.len() as int,
        ));
        out
    } else {
        let out = string_from(&v, 0, v.len());
        assert(v@.subrange(0, v.len() as int) =~= v@);
        out
    }
}

} // verus!
