//! Tiny HTML rendering helpers used by the embedded HTTP server.
//!
//! The templates are hand-rolled (no template engine) and every piece of
//! dynamic text that could carry markup is escaped to prevent injection.
//! Each renderer's contract is the exact page it produces, written as a
//! concatenation of the template pieces and the escaped dynamic parts.
use vstd::prelude::*;

use crate::state::{ReceiveEncryption, ReceiveSession, ShareKind, ShareSession};
use crate::text::{
    before_last, before_last_end, chars_of, dec, lemma_split_seq_len, non_empty, push_dec,
    push_range, skip_trailing, split_seq, trim_end_char,
};

verus! {

pub const BRAND_SVG: &'static str = "<svg viewBox=\"0 0 24 24\" width=\"22\" height=\"22\" fill=\"none\" stroke=\"currentColor\" stroke-width=\"1.8\" stroke-linecap=\"round\" stroke-linejoin=\"round\"><circle cx=\"18\" cy=\"5\" r=\"3\"/><circle cx=\"6\" cy=\"12\" r=\"3\"/><circle cx=\"18\" cy=\"19\" r=\"3\"/><path d=\"m8.6 13.5 6.8 4M15.4 6.5l-6.8 4\"/></svg>";

pub const FOLDER_SVG: &'static str = "<svg viewBox=\"0 0 24 24\" width=\"20\" height=\"20\" fill=\"none\" stroke=\"currentColor\" stroke-width=\"1.8\" stroke-linecap=\"round\" stroke-linejoin=\"round\"><path d=\"M4 20h16a2 2 0 0 0 2-2V8a2 2 0 0 0-2-2h-7.9a2 2 0 0 1-1.69-.9L9.6 3.9A2 2 0 0 0 7.93 3H4a2 2 0 0 0-2 2v13c0 1.1.9 2 2 2Z\"/></svg>";

pub const FILE_SVG: &'static str = "<svg viewBox=\"0 0 24 24\" width=\"20\" height=\"20\" fill=\"none\" stroke=\"currentColor\" stroke-width=\"1.8\" stroke-linecap=\"round\" stroke-linejoin=\"round\"><path d=\"M15 2H6a2 2 0 0 0-2 2v16a2 2 0 0 0 2 2h12a2 2 0 0 0 2-2V7Z\"/><path d=\"M14 2v4a2 2 0 0 0 2 2h4\"/></svg>";

pub const UP_SVG: &'static str = "<svg viewBox=\"0 0 24 24\" width=\"18\" height=\"18\" fill=\"none\" stroke=\"currentColor\" stroke-width=\"1.8\" stroke-linecap=\"round\" stroke-linejoin=\"round\"><path d=\"M7 17 17 7\"/><path d=\"M7 7h10v10\"/></svg>";

pub const CHEVRON_SVG: &'static str = "<svg viewBox=\"0 0 24 24\" width=\"14\" height=\"14\" fill=\"none\" stroke=\"currentColor\" stroke-width=\"2\" stroke-linecap=\"round\" stroke-linejoin=\"round\"><path d=\"m9 18 6-6-6-6\"/></svg>";

pub const EMPTY_SVG: &'static str = "<svg viewBox=\"0 0 24 24\" width=\"34\" height=\"34\" fill=\"none\" stroke=\"currentColor\" stroke-width=\"1.5\" stroke-linecap=\"round\" stroke-linejoin=\"round\"><path d=\"M22 12h-6l-2 3h-4l-2-3H2\"/><path d=\"M5.45 5.11 2 12v6a2 2 0 0 0 2 2h16a2 2 0 0 0 2-2v-6l-3.45-6.89A2 2 0 0 0 16.76 4H7.24a2 2 0 0 0-1.79 1.11z\"/></svg>";

pub const ERROR_SVG: &'static str = "<svg viewBox=\"0 0 24 24\" width=\"26\" height=\"26\" fill=\"none\" stroke=\"currentColor\" stroke-width=\"1.8\" stroke-linecap=\"round\" stroke-linejoin=\"round\"><circle cx=\"12\" cy=\"12\" r=\"10\"/><path d=\"M12 8v4\"/><path d=\"M12 16h.01\"/></svg>";

pub const CSS: &'static str = "
  :root { color-scheme: light dark; --bg:#ffffff; --surface:#ffffff; --surface-2:#fafafa; --border:#e4e4e7; --border-strong:#d4d4d8; --text:#09090b; --muted:#71717a; --subtle:#a1a1aa; --accent:#09090b; --accent-fg:#ffffff; --accent-soft:#f4f4f5; --shadow:0 1px 2px rgba(0,0,0,.05),0 8px 24px -12px rgba(0,0,0,.12); }
  @media (prefers-color-scheme: dark) { :root { --bg:#09090b; --surface:#18181b; --surface-2:#131316; --border:#27272a; --border-strong:#3f3f46; --text:#fafafa; --muted:#a1a1aa; --subtle:#71717a; --accent:#fafafa; --accent-fg:#09090b; --accent-soft:#27272a; --shadow:0 1px 2px rgba(0,0,0,.4),0 12px 32px -16px rgba(0,0,0,.7); } }
  * { box-sizing:border-box; }
  body { margin:0; font:14px/1.6 system-ui,-apple-system,\"Segoe UI\",Roboto,\"PingFang SC\",\"Microsoft YaHei\",sans-serif; background:var(--bg); color:var(--text); -webkit-font-smoothing:antialiased; }
  a { color:inherit; text-decoration:none; }
  .wrap { max-width:880px; margin:0 auto; padding:40px 20px 64px; }
  .brand { display:flex; align-items:center; gap:12px; margin-bottom:28px; }
  .brand-icon { width:44px; height:44px; border-radius:12px; background:var(--accent); color:var(--accent-fg); display:flex; align-items:center; justify-content:center; box-shadow:0 10px 24px -10px var(--accent); flex:none; }
  .brand h1 { margin:0; font-size:20px; letter-spacing:0; }
  .brand p { margin:2px 0 0; font-size:12px; color:var(--muted); }
  .page-title { margin:0 0 6px; font-size:26px; letter-spacing:0; }
  .page-sub { margin:0 0 24px; color:var(--muted); font-size:13.5px; }
  .badge { display:inline-flex; align-items:center; gap:6px; padding:5px 12px; border-radius:999px; background:var(--accent-soft); color:var(--accent); font-size:12.5px; font-weight:600; }
  .cards { display:grid; grid-template-columns:repeat(auto-fill,minmax(260px,1fr)); gap:14px; }
  .card { background:var(--surface); border:1px solid var(--border); border-radius:14px; padding:16px; box-shadow:var(--shadow); transition:border-color .15s ease,transform .15s ease; display:flex; flex-direction:column; gap:14px; }
  .card:hover { border-color:var(--accent); transform:translateY(-1px); }
  .card-top { display:flex; align-items:center; gap:12px; }
  .card-icon { width:40px; height:40px; border-radius:10px; display:flex; align-items:center; justify-content:center; flex:none; }
  .icon-folder { background:var(--surface-2); color:#b45309; }
  .icon-file { background:var(--accent-soft); color:#2563eb; }
  .card-name { font-weight:600; font-size:14.5px; overflow:hidden; text-overflow:ellipsis; white-space:nowrap; }
  .card-meta { display:flex; align-items:center; justify-content:space-between; color:var(--muted); font-size:12px; margin-top:2px; }
  .card-open { display:inline-flex; align-items:center; justify-content:center; gap:6px; padding:8px 0; border-radius:9px; background:var(--accent-soft); color:var(--accent); font-size:12.5px; font-weight:600; margin-top:auto; }
  .card-open:hover { background:var(--accent); color:var(--accent-fg); }
  .empty { text-align:center; padding:64px 20px; color:var(--subtle); background:var(--surface); border:1px dashed var(--border-strong); border-radius:14px; }
  .empty svg { margin-bottom:10px; opacity:.8; }
  .crumbs { display:flex; align-items:center; gap:8px; flex-wrap:wrap; font-size:13px; color:var(--muted); margin-bottom:18px; }
  .crumbs a { color:var(--accent); font-weight:600; }
  .crumbs .sep { color:var(--border-strong); display:flex; }
  .bar { display:flex; align-items:center; justify-content:space-between; gap:12px; margin-bottom:18px; flex-wrap:wrap; }
  .bar h2 { margin:0; font-size:17px; letter-spacing:0; }
  .back { display:inline-flex; align-items:center; padding:5px 12px; border-radius:999px; background:var(--accent-soft); color:var(--accent); font-size:12.5px; font-weight:600; }
  .back:hover { background:var(--accent); color:var(--accent-fg); }
  .list { background:var(--surface); border:1px solid var(--border); border-radius:14px; overflow:hidden; box-shadow:var(--shadow); }
  .row { display:flex; align-items:center; gap:12px; padding:12px 16px; border-top:1px solid var(--border); transition:background .12s ease; }
  .row:first-child { border-top:0; }
  .row:hover { background:var(--surface-2); }
  .row-icon { width:34px; height:34px; border-radius:9px; display:flex; align-items:center; justify-content:center; flex:none; }
  .row-name { flex:1; min-width:0; font-weight:500; overflow:hidden; text-overflow:ellipsis; white-space:nowrap; }
  .row:hover .row-name { color:var(--accent); }
  .row-size { color:var(--subtle); font-size:12px; font-variant-numeric:tabular-nums; flex:none; }
  .row-up { color:var(--muted); }
  .error { max-width:480px; margin:10vh auto 0; text-align:center; background:var(--surface); border:1px solid var(--border); border-radius:16px; padding:36px 28px; box-shadow:var(--shadow); }
  .error .brand-icon { margin:0 auto 16px; }
  .error h1 { margin:0 0 6px; font-size:18px; letter-spacing:0; }
  .error p { margin:0; color:var(--muted); font-size:13.5px; }
  @media (max-width:640px) { .wrap { padding:24px 14px 48px; } .cards { grid-template-columns:1fr; } }
";

// ---------------------------------------------------------------------------
// Escaping
// ---------------------------------------------------------------------------
/// The escaped form of one character.
pub open spec fn escape_char(c: char) -> Seq<char> {
    if c == '<' {
        "&lt;"@
    } else if c == '>' {
        "&gt;"@
    } else if c == '&' {
        "&amp;"@
    } else if c == '"' {
        "&quot;"@
    } else if c == '\'' {
        "&#39;"@
    } else {
        seq![c]
    }
}

/// `s` with `< > & " '` replaced by their character references.
pub open spec fn escape_spec(s: Seq<char>) -> Seq<char>
    decreases s.len(),
{
    if s.len() == 0 {
        Seq::<char>::empty()
    } else {
        escape_spec(s.drop_last()) + escape_char(s.last())
    }
}

/// Appends the escaped form of `s` to `out`.
pub fn push_escaped(out: &mut String, s: &str)
    ensures
        final(out)@ == old(out)@ + escape_spec(s@),
{
    let v = chars_of(s);
    push_escaped_chars(out, &v, 0, v.len());
    assert(v@.subrange(0, v.len() as int) =~= s@);
}

/// Appends the escaped form of the characters `v[lo..hi]` to `out`.
pub fn push_escaped_chars(out: &mut String, v: &Vec<char>, lo: usize, hi: usize)
    requires
        lo <= hi <= v.len(),
    ensures
        final(out)@ == old(out)@ + escape_spec(v@.subrange(lo as int, hi as int)),
{
    let ghost start = out@;
    let mut i = lo;
    while i < hi
        invariant
            lo <= i <= hi <= v.len(),
            out@ == start + escape_spec(v@.subrange(lo as int, i as int)),
        decreases hi - i,
    {
        let c = v[i];
        if c == '<' {
            out.append("&lt;");
        } else if c == '>' {
            out.append("&gt;");
        } else if c == '&' {
            out.append("&amp;");
        } else if c == '"' {
            out.append("&quot;");
        } else if c == '\'' {
            out.append("&#39;");
        } else {
            out.push(c);
        }
        proof {
            let after = v@.subrange(lo as int, i + 1);
            assert(after.drop_last() =~= v@.subrange(lo as int, i as int));
            assert(out@ =~= start + escape_spec(after));
        }
        i = i + 1;
    }
}

/// Escapes `< > & " '` so that `s` can be placed in HTML text or in a
/// quoted attribute.
pub fn escape(s: &str) -> (r: String)
    ensures
        r@ == escape_spec(s@),
{
    let mut out = String::new();
    push_escaped(&mut out, s);
    assert(out@ =~= escape_spec(s@));
    out
}

// ---------------------------------------------------------------------------
// Page frame
// ---------------------------------------------------------------------------
/// The complete document around `body`, titled with the escaped `title`.
pub open spec fn page_spec(title: Seq<char>, body: Seq<char>) -> Seq<char> {
    "<!doctype html><html lang=\"zh-CN\"><head><meta charset=\"utf-8\"><meta name=\"viewport\" content=\"width=device-width,initial-scale=1\"><title>"@
        + escape_spec(title) + "</title><style>"@ + CSS@
        + "</style></head><body><main class=\"wrap\">"@ + body + "</main></body></html>"@
}

/// The brand block at the top of every listing page.
pub open spec fn brand_spec() -> Seq<char> {
    "<div class=\"brand\"><div class=\"brand-icon\">"@ + BRAND_SVG@
        + "</div><div><h1>RV NetShare</h1><p>局域网文件分享</p></div></div>"@
}

fn page(title: &str, body: &str) -> (r: String)
    ensures
        r@ == page_spec(title@, body@),
{
    let mut out = String::new();
    out.append(
        "<!doctype html><html lang=\"zh-CN\"><head><meta charset=\"utf-8\"><meta name=\"viewport\" content=\"width=device-width,initial-scale=1\"><title>",
    );
    push_escaped(&mut out, title);
    out.append("</title><style>");
    out.append(CSS);
    out.append("</style></head><body><main class=\"wrap\">");
    out.append(body);
    out.append("</main></body></html>");
    assert(out@ =~= page_spec(title@, body@));
    out
}

fn push_brand(out: &mut String)
    ensures
        final(out)@ == old(out)@ + brand_spec(),
{
    out.append("<div class=\"brand\"><div class=\"brand-icon\">");
    out.append(BRAND_SVG);
    out.append("</div><div><h1>RV NetShare</h1><p>局域网文件分享</p></div></div>");
    assert(out@ =~= old(out)@ + brand_spec());
}

// ---------------------------------------------------------------------------
// Error page
// ---------------------------------------------------------------------------
/// The body of the error page.
pub open spec fn error_body_spec(code: u16, reason: Seq<char>, msg: Seq<char>) -> Seq<char> {
    "<div class=\"error\"><div class=\"brand-icon\">"@ + ERROR_SVG@ + "</div><h1>"@ + dec(
        code as nat,
    ) + " "@ + escape_spec(reason) + "</h1><p>"@ + escape_spec(msg) + "</p></div>"@
}

/// The page shown for an HTTP error: `code reason` as the title and heading,
/// `msg` as the explanation.
pub open spec fn render_error_spec(code: u16, reason: Seq<char>, msg: Seq<char>) -> Seq<char> {
    page_spec(dec(code as nat) + " "@ + reason, error_body_spec(code, reason, msg))
}

/// Renders the error page for `code reason` with the explanation `msg`.
pub fn render_error(code: u16, reason: &str, msg: &str) -> (r: String)
    ensures
        r@ == render_error_spec(code, reason@, msg@),
{
    let mut body = String::new();
    body.append("<div class=\"error\"><div class=\"brand-icon\">");
    body.append(ERROR_SVG);
    body.append("</div><h1>");
    push_dec(&mut body, code as u64);
    body.append(" ");
    push_escaped(&mut body, reason);
    body.append("</h1><p>");
    push_escaped(&mut body, msg);
    body.append("</p></div>");
    assert(body@ =~= error_body_spec(code, reason@, msg@));
    let mut title = String::new();
    push_dec(&mut title, code as u64);
    title.append(" ");
    title.append(reason);
    assert(title@ =~= dec(code as nat) + " "@ + reason@);
    page(title.as_str(), body.as_str())
}


/// Escaped text holds none of the characters that could open a tag or close
/// an attribute value: `<`, `>`, `"` and `'`.
pub proof fn lemma_escape_has_no_markup(s: Seq<char>)
    ensures
        forall|i: int|
            0 <= i < escape_spec(s).len() ==> {
                let c = #[trigger] escape_spec(s)[i];
                c != '<' && c != '>' && c != '"' && c != '\''
            },
    decreases s.len(),
{
    reveal_strlit("&lt;");
    reveal_strlit("&gt;");
    reveal_strlit("&amp;");
    reveal_strlit("&quot;");
    reveal_strlit("&#39;");
    if s.len() > 0 {
        lemma_escape_has_no_markup(s.drop_last());
        let a = escape_spec(s.drop_last());
        let b = escape_char(s.last());
        assert forall|i: int| 0 <= i < escape_spec(s).len() implies {
            let c = #[trigger] escape_spec(s)[i];
            c != '<' && c != '>' && c != '"' && c != '\''
        } by {
            if i < a.len() {
                assert(escape_spec(s)[i] == a[i]);
            } else {
                assert(escape_spec(s)[i] == b[i - a.len()]);
            }
        }
    }
}

// ---------------------------------------------------------------------------
// Index page
// ---------------------------------------------------------------------------
/// One card of the index page; `size` is the already formatted size label.
pub open spec fn card_spec(share: ShareSession, size: Seq<char>) -> Seq<char> {
    let kind_label = match share.kind {
        ShareKind::File => "文件"@,
        ShareKind::Folder => "文件夹"@,
    };
    let icon_class = match share.kind {
        ShareKind::File => "icon-file"@,
        ShareKind::Folder => "icon-folder"@,
    };
    let icon = match share.kind {
        ShareKind::File => FILE_SVG@,
        ShareKind::Folder => FOLDER_SVG@,
    };
    let href = match share.kind {
        ShareKind::File => "/s/"@ + share.id@,
        ShareKind::Folder => "/s/"@ + share.id@ + "/"@,
    };
    "<a class=\"card\" href=\""@ + href + "\"><div class=\"card-top\"><div class=\"card-icon "@
        + icon_class + "\">"@ + icon + "</div><div><div class=\"card-name\">"@ + escape_spec(
        share.name@,
    ) + "</div><div class=\"card-meta\"><span>"@ + kind_label + "</span><span>"@ + size
        + "</span></div></div></div><div class=\"card-open\">进入分享</div></a>"@
}

/// The cards of all shares, in order.
pub open spec fn cards_spec(shares: Seq<ShareSession>, sizes: Seq<String>) -> Seq<char>
    decreases shares.len(),
{
    if shares.len() == 0 {
        Seq::<char>::empty()
    } else {
        cards_spec(shares.drop_last(), sizes.drop_last()) + card_spec(
            shares.last(),
            sizes[shares.len() - 1]@,
        )
    }
}

/// The index page listing every share; `sizes[i]` is the size label of
/// `shares[i]`.
pub open spec fn render_index_spec(shares: Seq<ShareSession>, sizes: Seq<String>) -> Seq<char> {
    if shares.len() == 0 {
        page_spec(
            "暂无分享 - RV NetShare"@,
            brand_spec()
                + "<p class=\"page-title\">暂无分享</p><p class=\"page-sub\">打开本机应用添加文件或文件夹后，这里会显示可下载的内容。</p>"@
                + "<div class=\"empty\">"@ + EMPTY_SVG@ + "</div>"@,
        )
    } else {
        page_spec(
            dec(shares.len()) + " 个分享 - RV NetShare"@,
            brand_spec() + "<p class=\"page-title\">当前 "@ + dec(shares.len())
                + " 个分享</p><p class=\"page-sub\">以下内容由本机应用提供，仅限同一局域网内访问。</p>"@
                + "<div class=\"cards\">"@ + cards_spec(shares, sizes) + "</div>"@,
        )
    }
}

fn push_card(out: &mut String, share: &ShareSession, size: &String)
    ensures
        final(out)@ == old(out)@ + card_spec(*share, size@),
{
    out.append("<a class=\"card\" href=\"");
    out.append("/s/");
    out.append(share.id.as_str());
    match share.kind {
        ShareKind::File => {},
        ShareKind::Folder => {
            out.append("/");
        },
    }
    out.append("\"><div class=\"card-top\"><div class=\"card-icon ");
    match share.kind {
        ShareKind::File => {
            out.append("icon-file");
        },
        ShareKind::Folder => {
            out.append("icon-folder");
        },
    }
    out.append("\">");
    match share.kind {
        ShareKind::File => {
            out.append(FILE_SVG);
        },
        ShareKind::Folder => {
            out.append(FOLDER_SVG);
        },
    }
    out.append("</div><div><div class=\"card-name\">");
    push_escaped(out, share.name.as_str());
    out.append("</div><div class=\"card-meta\"><span>");
    match share.kind {
        ShareKind::File => {
            out.append("文件");
        },
        ShareKind::Folder => {
            out.append("文件夹");
        },
    }
    out.append("</span><span>");
    out.append(size.as_str());
    out.append("</span></div></div></div><div class=\"card-open\">进入分享</div></a>");
    assert(out@ =~= old(out)@ + card_spec(*share, size@));
}

/// Renders the index page listing every share. The size shown on the card of
/// `shares[i]` is `sizes[i]`, formatted by the caller from the larger of the
/// share's `total_bytes` and `size`.
pub fn render_index(shares: &[ShareSession], sizes: &[String]) -> (r: String)
    requires
        sizes@.len() == shares@.len(),
    ensures
        r@ == render_index_spec(shares@, sizes@),
{
    let mut body = String::new();
    push_brand(&mut body);
    if shares.len() == 0 {
        body.append(
            "<p class=\"page-title\">暂无分享</p><p class=\"page-sub\">打开本机应用添加文件或文件夹后，这里会显示可下载的内容。</p>",
        );
        body.append("<div class=\"empty\">");
        body.append(EMPTY_SVG);
        body.append("</div>");
        return page("暂无分享 - RV NetShare", body.as_str());
    }
    body.append("<p class=\"page-title\">当前 ");
    push_dec(&mut body, shares.len() as u64);
    body.append(
        " 个分享</p><p class=\"page-sub\">以下内容由本机应用提供，仅限同一局域网内访问。</p>",
    );
    body.append("<div class=\"cards\">");
    let ghost head = body@;
    let mut i: usize = 0;
    while i < shares.len()
        invariant
            i <= shares@.len(),
            sizes@.len() == shares@.len(),
            body@ == head + cards_spec(shares@.take(i as int), sizes@.take(i as int)),
        decreases shares.len() - i,
    {
        push_card(&mut body, &shares[i], &sizes[i]);
        proof {
            let s2 = shares@.take(i + 1);
            let z2 = sizes@.take(i + 1);
            assert(s2.drop_last() =~= shares@.take(i as int));
            assert(z2.drop_last() =~= sizes@.take(i as int));
            assert(body@ =~= head + cards_spec(s2, z2));
        }
        i = i + 1;
    }
    body.append("</div>");
    assert(shares@.take(i as int) =~= shares@);
    assert(sizes@.take(i as int) =~= sizes@);
    let mut title = String::new();
    push_dec(&mut title, shares.len() as u64);
    title.append(" 个分享 - RV NetShare");
    page(title.as_str(), body.as_str())
}


// ---------------------------------------------------------------------------
// Folder listing
// ---------------------------------------------------------------------------
/// The link target of a breadcrumb: every segment up to it, escaped, each
/// followed by `/`.
pub open spec fn crumb_path(segs: Seq<Seq<char>>) -> Seq<char>
    decreases segs.len(),
{
    if segs.len() == 0 {
        Seq::<char>::empty()
    } else {
        crumb_path(segs.drop_last()) + escape_spec(segs.last()) + "/"@
    }
}

/// The breadcrumbs for the segments of a subpath.
pub open spec fn crumbs_spec(id: Seq<char>, segs: Seq<Seq<char>>) -> Seq<char>
    decreases segs.len(),
{
    if segs.len() == 0 {
        Seq::<char>::empty()
    } else {
        crumbs_spec(id, segs.drop_last()) + "<span class=\"sep\">"@ + CHEVRON_SVG@
            + "</span><a href=\"/s/"@ + id + "/"@ + crumb_path(segs) + "\">"@ + escape_spec(
            segs.last(),
        ) + "</a>"@
    }
}

/// The link one level up from `subpath` inside share `id`.
pub open spec fn parent_link_spec(id: Seq<char>, subpath: Seq<char>) -> Seq<char> {
    let parent = before_last(trim_end_char(subpath, '/'), '/');
    if parent.len() == 0 {
        "/s/"@ + id + "/"@
    } else {
        "/s/"@ + id + "/"@ + escape_spec(parent) + "/"@
    }
}

/// The row of one directory entry; `size` is the formatted size label.
pub open spec fn row_spec(
    id: Seq<char>,
    subpath: Seq<char>,
    entry: (String, bool, u64),
    size: Seq<char>,
) -> Seq<char> {
    let href = if subpath.len() == 0 {
        escape_spec(entry.0@) + "/"@
    } else {
        escape_spec(subpath) + "/"@ + escape_spec(entry.0@) + "/"@
    };
    let link = "/s/"@ + id + "/"@ + href;
    if entry.1 {
        "<a class=\"row\" href=\""@ + link + "\"><div class=\"row-icon icon-folder\">"@
            + FOLDER_SVG@ + "</div><div class=\"row-name\">"@ + escape_spec(entry.0@)
            + "</div><div class=\"row-size\">文件夹</div></a>"@
    } else {
        "<a class=\"row\" href=\""@ + link + "\"><div class=\"row-icon icon-file\">"@
            + FILE_SVG@ + "</div><div class=\"row-name\">"@ + escape_spec(entry.0@)
            + "</div><div class=\"row-size\">"@ + size + "</div></a>"@
    }
}

/// The rows of all entries, in order.
pub open spec fn rows_spec(
    id: Seq<char>,
    subpath: Seq<char>,
    entries: Seq<(String, bool, u64)>,
    sizes: Seq<String>,
) -> Seq<char>
    decreases entries.len(),
{
    if entries.len() == 0 {
        Seq::<char>::empty()
    } else {
        rows_spec(id, subpath, entries.drop_last(), sizes.drop_last()) + row_spec(
            id,
            subpath,
            entries.last(),
            sizes[entries.len() - 1]@,
        )
    }
}

/// The body of a folder listing.
pub open spec fn listing_body_spec(
    share: ShareSession,
    subpath: Seq<char>,
    entries: Seq<(String, bool, u64)>,
    sizes: Seq<String>,
) -> Seq<char> {
    let id = share.id@;
    let up = parent_link_spec(id, subpath);
    brand_spec() + "<nav class=\"crumbs\"><a href=\"/\">主页</a>"@ + "<span class=\"sep\">"@
        + CHEVRON_SVG@ + "</span><a href=\"/s/"@ + id + "/\">"@ + escape_spec(share.name@)
        + "</a>"@ + crumbs_spec(id, non_empty(split_seq(subpath, '/'))) + "</nav>"@
        + "<div class=\"bar\"><h2>"@ + escape_spec(share.name@)
        + "</h2><a class=\"back\" href=\""@ + up + "\">返回上级</a></div>"@
        + "<div class=\"list\">"@ + "<a class=\"row row-up\" href=\""@ + up
        + "\"><div class=\"row-icon\">"@ + UP_SVG@
        + "</div><div class=\"row-name\">返回上级</div></a>"@ + (if entries.len() == 0 {
        "<div class=\"row\"><div class=\"row-name\">此文件夹为空</div></div>"@
    } else {
        Seq::<char>::empty()
    }) + rows_spec(id, subpath, entries, sizes) + "</div>"@
}

/// The folder listing page of `subpath` inside a folder share.
pub open spec fn render_folder_listing_spec(
    share: ShareSession,
    subpath: Seq<char>,
    entries: Seq<(String, bool, u64)>,
    sizes: Seq<String>,
) -> Seq<char> {
    page_spec(share.name@ + " - "@ + subpath, listing_body_spec(share, subpath, entries, sizes))
}

/// `k` slashes.
pub open spec fn slashes(k: nat) -> Seq<char> {
    Seq::new(k, |i: int| '/')
}

/// The back link of a folder goes one level up: for the subpath
/// `parent/last` (any trailing slashes ignored) it is the link of `parent`,
/// escaped; for a subpath of one segment it is the share's root.
pub proof fn lemma_back_link_one_level_up(
    id: Seq<char>,
    parent: Seq<char>,
    last: Seq<char>,
    k: nat,
)
    requires
        last.len() > 0,
        forall|i: int| 0 <= i < last.len() ==> #[trigger] last[i] != '/',
    ensures
        parent_link_spec(id, last + slashes(k)) == "/s/"@ + id + "/"@,
        parent_link_spec(id, parent + seq!['/'] + last + slashes(k)) == if parent.len() == 0 {
            "/s/"@ + id + "/"@
        } else {
            "/s/"@ + id + "/"@ + escape_spec(parent) + "/"@
        },
{
    let one = last + slashes(k);
    assert forall|j: int| last.len() <= j < one.len() implies #[trigger] one[j] == '/' by {
        assert(one[j] == slashes(k)[j - last.len()]);
    }
    crate::text::lemma_trim_end_char_take(one, '/', last.len() as int);
    assert(one.take(last.len() as int) =~= last);
    assert(trim_end_char(last, '/') == last);
    crate::text::lemma_before_last_take(last, '/', 0);
    assert(last.take(0) =~= Seq::<char>::empty());

    let t = parent + seq!['/'] + last;
    let two = t + slashes(k);
    assert forall|j: int| t.len() <= j < two.len() implies #[trigger] two[j] == '/' by {
        assert(two[j] == slashes(k)[j - t.len()]);
    }
    crate::text::lemma_trim_end_char_take(two, '/', t.len() as int);
    assert(two.take(t.len() as int) =~= t);
    assert(t.last() == last.last());
    assert(trim_end_char(t, '/') == t);
    assert forall|j: int| parent.len() + 1 <= j < t.len() implies #[trigger] t[j] != '/' by {
        assert(t[j] == last[j - parent.len() - 1]);
    }
    crate::text::lemma_before_last_take(t, '/', parent.len() + 1int);
    let head = t.take(parent.len() + 1int);
    assert(head =~= parent.push('/'));
    assert(head.drop_last() =~= parent);
}

/// Both back links of a folder listing, in the bar and as the first row,
/// lead to the parent link of its subpath.
pub proof fn lemma_listing_back_links(
    share: ShareSession,
    subpath: Seq<char>,
    entries: Seq<(String, bool, u64)>,
    sizes: Seq<String>,
)
    ensures
        exists|x: Seq<char>, y: Seq<char>|
            listing_body_spec(share, subpath, entries, sizes) == #[trigger] (x
                + "<a class=\"back\" href=\""@ + parent_link_spec(share.id@, subpath)
                + "\">返回上级</a>"@ + y),
        exists|x: Seq<char>, y: Seq<char>|
            listing_body_spec(share, subpath, entries, sizes) == #[trigger] (x
                + "<a class=\"row row-up\" href=\""@ + parent_link_spec(share.id@, subpath)
                + "\">"@ + y),
{
    reveal_strlit("</h2><a class=\"back\" href=\"");
    reveal_strlit("</h2>");
    reveal_strlit("<a class=\"back\" href=\"");
    reveal_strlit("\">返回上级</a></div>");
    reveal_strlit("\">返回上级</a>");
    reveal_strlit("</div>");
    reveal_strlit("\"><div class=\"row-icon\">");
    reveal_strlit("\">");
    reveal_strlit("<div class=\"row-icon\">");
    let id = share.id@;
    let up = parent_link_spec(id, subpath);
    let a = brand_spec() + "<nav class=\"crumbs\"><a href=\"/\">主页</a>"@ + "<span class=\"sep\">"@
        + CHEVRON_SVG@ + "</span><a href=\"/s/"@ + id + "/\">"@ + escape_spec(share.name@)
        + "</a>"@ + crumbs_spec(id, non_empty(split_seq(subpath, '/'))) + "</nav>"@
        + "<div class=\"bar\"><h2>"@ + escape_spec(share.name@);
    let tail = "<div class=\"list\">"@ + "<a class=\"row row-up\" href=\""@ + up
        + "\"><div class=\"row-icon\">"@ + UP_SVG@
        + "</div><div class=\"row-name\">返回上级</div></a>"@ + (if entries.len() == 0 {
        "<div class=\"row\"><div class=\"row-name\">此文件夹为空</div></div>"@
    } else {
        Seq::<char>::empty()
    }) + rows_spec(id, subpath, entries, sizes) + "</div>"@;
    let body = listing_body_spec(share, subpath, entries, sizes);
    assert(body =~= a + "</h2><a class=\"back\" href=\""@ + up + "\">返回上级</a></div>"@ + tail);
    let x1 = a + "</h2>"@;
    let y1 = "</div>"@ + tail;
    assert(body =~= x1 + "<a class=\"back\" href=\""@ + up + "\">返回上级</a>"@ + y1);
    let after = "<div class=\"row-icon\">"@ + UP_SVG@
        + "</div><div class=\"row-name\">返回上级</div></a>"@ + (if entries.len() == 0 {
        "<div class=\"row\"><div class=\"row-name\">此文件夹为空</div></div>"@
    } else {
        Seq::<char>::empty()
    }) + rows_spec(id, subpath, entries, sizes) + "</div>"@;
    let x2 = a + "</h2><a class=\"back\" href=\""@ + up + "\">返回上级</a></div>"@
        + "<div class=\"list\">"@;
    assert(body =~= x2 + "<a class=\"row row-up\" href=\""@ + up + "\">"@ + after);
}

/// The link one level up from `subpath` inside `share`.
fn parent_link(share: &ShareSession, subpath: &str) -> (r: String)
    ensures
        r@ == parent_link_spec(share.id@, subpath@),
{
    let v = chars_of(subpath);
    let e = skip_trailing(&v, 0, v.len(), '/');
    let b = before_last_end(&v, 0, e, '/');
    assert(v@.subrange(0, v.len() as int) =~= subpath@);
    let mut out = String::new();
    out.append("/s/");
    out.append(share.id.as_str());
    out.append("/");
    if b > 0 {
        push_escaped_chars(&mut out, &v, 0, b);
        out.append("/");
    }
    assert(out@ =~= parent_link_spec(share.id@, subpath@));
    out
}

/// Appends the breadcrumb of the segment `v[lo..hi]`, whose predecessors are
/// `done`; `acc` holds their crumb path and is extended by the segment.
#[verifier::rlimit(50)]
fn push_crumb(
    out: &mut String,
    acc: &mut String,
    id: &String,
    v: &Vec<char>,
    lo: usize,
    hi: usize,
    Ghost(done): Ghost<Seq<Seq<char>>>,
)
    requires
        lo <= hi <= v.len(),
        old(acc)@ == crumb_path(done),
    ensures
        ({
            let d2 = done.push(v@.subrange(lo as int, hi as int));
            &&& final(acc)@ == crumb_path(d2)
            &&& final(out)@ == old(out)@ + crumbs_spec(id@, d2).subrange(
                crumbs_spec(id@, done).len() as int,
                crumbs_spec(id@, d2).len() as int,
            )
            &&& crumbs_spec(id@, d2) == crumbs_spec(id@, done) + crumbs_spec(id@, d2).subrange(
                crumbs_spec(id@, done).len() as int,
                crumbs_spec(id@, d2).len() as int,
            )
        }),
{
    let ghost seg = v@.subrange(lo as int, hi as int);
    let ghost d2 = done.push(seg);
    let ghost o = out@;
    push_escaped_chars(acc, v, lo, hi);
    acc.append("/");
    out.append("<span class=\"sep\">");
    out.append(CHEVRON_SVG);
    out.append("</span><a href=\"/s/");
    out.append(id.as_str());
    out.append("/");
    out.append(acc.as_str());
    out.append("\">");
    push_escaped_chars(out, v, lo, hi);
    out.append("</a>");
    proof {
        assert(d2.drop_last() =~= done);
        assert(acc@ =~= crumb_path(d2));
        let piece = "<span class=\"sep\">"@ + CHEVRON_SVG@ + "</span><a href=\"/s/"@ + id@ + "/"@
            + crumb_path(d2) + "\">"@ + escape_spec(seg) + "</a>"@;
        assert(crumbs_spec(id@, d2) == crumbs_spec(id@, done) + piece);
        assert(crumbs_spec(id@, d2).subrange(
            crumbs_spec(id@, done).len() as int,
            crumbs_spec(id@, d2).len() as int,
        ) =~= piece);
        assert(out@ =~= o + piece);
    }
}

/// Splitting one more character onto `s`.
proof fn lemma_split_step(s: Seq<char>, i: int, seg_start: int)
    requires
        0 <= seg_start <= i < s.len(),
        split_seq(s.take(i), '/').last() == s.subrange(seg_start, i),
    ensures
        ({
            let p = split_seq(s.take(i), '/');
            let p2 = split_seq(s.take(i + 1), '/');
            if s[i] == '/' {
                &&& p2.drop_last() == p
                &&& p2.last() == s.subrange(i + 1, i + 1)
            } else {
                &&& p2.drop_last() == p.drop_last()
                &&& p2.last() == s.subrange(seg_start, i + 1)
            }
        }),
{
    let t = s.take(i + 1);
    assert(t.drop_last() =~= s.take(i));
    lemma_split_seq_len(s.take(i), '/');
    let p = split_seq(s.take(i), '/');
    let p2 = split_seq(t, '/');
    if s[i] == '/' {
        assert(p2 == p.push(Seq::<char>::empty()));
        assert(p2.drop_last() =~= p);
        assert(p2.last() =~= s.subrange(i + 1, i + 1));
    } else {
        assert(p2 == p.update(p.len() - 1, p.last().push(s[i])));
        assert(p2.drop_last() =~= p.drop_last());
        assert(p2.last() =~= s.subrange(seg_start, i + 1));
    }
}

/// The non-empty pieces of a split, with the last piece taken apart.
proof fn lemma_non_empty_last(p: Seq<Seq<char>>)
    requires
        p.len() >= 1,
    ensures
        non_empty(p) == (if p.last().len() > 0 {
            non_empty(p.drop_last()).push(p.last())
        } else {
            non_empty(p.drop_last())
        }),
{
}

/// Appends the breadcrumbs for every non-empty segment of `subpath`.
fn push_crumbs(out: &mut String, id: &String, subpath: &str)
    ensures
        final(out)@ == old(out)@ + crumbs_spec(id@, non_empty(split_seq(subpath@, '/'))),
{
    let v = chars_of(subpath);
    let ghost start = out@;
    let ghost mut done: Seq<Seq<char>> = Seq::empty();
    let mut acc = String::new();
    let mut seg_start: usize = 0;
    let mut i: usize = 0;
    proof {
        assert(v@.take(0) =~= Seq::<char>::empty());
        assert(v@.subrange(0, 0) =~= Seq::<char>::empty());
    }
    while i < v.len()
        invariant
            seg_start <= i <= v.len(),
            split_seq(v@.take(i as int), '/').last() == v@.subrange(seg_start as int, i as int),
            non_empty(split_seq(v@.take(i as int), '/').drop_last()) == done,
            out@ == start + crumbs_spec(id@, done),
            acc@ == crumb_path(done),
        decreases v.len() - i,
    {
        proof {
            lemma_split_step(v@, i as int, seg_start as int);
            lemma_split_seq_len(v@.take(i as int), '/');
            lemma_non_empty_last(split_seq(v@.take(i as int), '/'));
        }
        if v[i] == '/' {
            if seg_start < i {
                push_crumb(out, &mut acc, id, &v, seg_start, i, Ghost(done));
                proof {
                    done = done.push(v@.subrange(seg_start as int, i as int));
                }
            }
            seg_start = i + 1;
        }
        i = i + 1;
    }
    proof {
        assert(v@.take(i as int) =~= v@);
        lemma_split_seq_len(v@, '/');
        lemma_non_empty_last(split_seq(v@, '/'));
    }
    if seg_start < i {
        push_crumb(out, &mut acc, id, &v, seg_start, i, Ghost(done));
        proof {
            done = done.push(v@.subrange(seg_start as int, i as int));
        }
    }
    assert(v@ =~= subpath@);
    assert(done == non_empty(split_seq(subpath@, '/')));
}

fn push_row(out: &mut String, id: &String, subpath: &str, entry: &(String, bool, u64), size: &String)
    ensures
        final(out)@ == old(out)@ + row_spec(id@, subpath@, *entry, size@),
{
    let mut href = String::new();
    if subpath.is_empty() {
        push_escaped(&mut href, entry.0.as_str());
        href.append("/");
    } else {
        push_escaped(&mut href, subpath);
        href.append("/");
        push_escaped(&mut href, entry.0.as_str());
        href.append("/");
    }
    out.append("<a class=\"row\" href=\"");
    out.append("/s/");
    out.append(id.as_str());
    out.append("/");
    out.append(href.as_str());
    if entry.1 {
        out.append("\"><div class=\"row-icon icon-folder\">");
        out.append(FOLDER_SVG);
        out.append("</div><div class=\"row-name\">");
        push_escaped(out, entry.0.as_str());
        out.append("</div><div class=\"row-size\">文件夹</div></a>");
    } else {
        out.append("\"><div class=\"row-icon icon-file\">");
        out.append(FILE_SVG);
        out.append("</div><div class=\"row-name\">");
        push_escaped(out, entry.0.as_str());
        out.append("</div><div class=\"row-size\">");
        out.append(size.as_str());
        out.append("</div></a>");
    }
    assert(out@ =~= old(out)@ + row_spec(id@, subpath@, *entry, size@));
}

/// Renders the listing of `subpath` inside a folder share. `entries` are the
/// directory's `(name, is_dir, size)` triples in display order; the size
/// shown for the file `entries[i]` is `sizes[i]`, formatted by the caller.
pub fn render_folder_listing(
    share: &ShareSession,
    subpath: &str,
    entries: &[(String, bool, u64)],
    sizes: &[String],
) -> (r: String)
    requires
        sizes@.len() == entries@.len(),
    ensures
        r@ == render_folder_listing_spec(*share, subpath@, entries@, sizes@),
{
    let up = parent_link(share, subpath);
    let mut body = String::new();
    push_brand(&mut body);
    body.append("<nav class=\"crumbs\"><a href=\"/\">主页</a>");
    body.append("<span class=\"sep\">");
    body.append(CHEVRON_SVG);
    body.append("</span><a href=\"/s/");
    body.append(share.id.as_str());
    body.append("/\">");
    push_escaped(&mut body, share.name.as_str());
    body.append("</a>");
    push_crumbs(&mut body, &share.id, subpath);
    body.append("</nav>");
    body.append("<div class=\"bar\"><h2>");
    push_escaped(&mut body, share.name.as_str());
    body.append("</h2><a class=\"back\" href=\"");
    body.append(up.as_str());
    body.append("\">返回上级</a></div>");
    body.append("<div class=\"list\">");
    body.append("<a class=\"row row-up\" href=\"");
    body.append(up.as_str());
    body.append("\"><div class=\"row-icon\">");
    body.append(UP_SVG);
    body.append("</div><div class=\"row-name\">返回上级</div></a>");
    if entries.len() == 0 {
        body.append("<div class=\"row\"><div class=\"row-name\">此文件夹为空</div></div>");
    }
    let ghost head = body@;
    let mut i: usize = 0;
    while i < entries.len()
        invariant
            i <= entries@.len(),
            sizes@.len() == entries@.len(),
            body@ == head + rows_spec(
                share.id@,
                subpath@,
                entries@.take(i as int),
                sizes@.take(i as int),
            ),
        decreases entries.len() - i,
    {
        push_row(&mut body, &share.id, subpath, &entries[i], &sizes[i]);
        proof {
            let e2 = entries@.take(i + 1);
            let z2 = sizes@.take(i + 1);
            assert(e2.drop_last() =~= entries@.take(i as int));
            assert(z2.drop_last() =~= sizes@.take(i as int));
            assert(body@ =~= head + rows_spec(share.id@, subpath@, e2, z2));
        }
        i = i + 1;
    }
    body.append("</div>");
    assert(entries@.take(i as int) =~= entries@);
    assert(sizes@.take(i as int) =~= sizes@);
    assert(body@ =~= listing_body_spec(*share, subpath@, entries@, sizes@));
    let mut title = String::new();
    title.append(share.name.as_str());
    title.append(" - ");
    title.append(subpath);
    page(title.as_str(), body.as_str())
}

// ---------------------------------------------------------------------------
// Upload page of a receive card
// ---------------------------------------------------------------------------
/// The script of the upload page: lists the chosen files and posts each one
/// to the form's target with its encoded name and the password, if asked.
pub const UPLOAD_SCRIPT: &'static str = "<script>const form=document.getElementById('upload-form');const input=document.getElementById('upload-files');const list=document.getElementById('selected-list');input.addEventListener('change',()=>{list.innerHTML='';for(const f of input.files){const li=document.createElement('li');li.textContent=f.name;list.appendChild(li);}});form.addEventListener('submit',async(e)=>{e.preventDefault();const pw=document.getElementById('upload-password');for(const f of input.files){const headers={'X-File-Name':encodeURIComponent(f.name)};if(pw){headers['X-Upload-Password']=pw.value;}const res=await fetch(form.dataset.target,{method:'POST',headers,body:f});const data=await res.json();const li=document.createElement('li');li.textContent=data.message;list.appendChild(li);}});</script>";

/// The accepted file types as shown: `.ext` for each, separated by spaces,
/// or a note that any type is accepted.
pub open spec fn types_spec(exts: Seq<String>) -> Seq<char>
    decreases exts.len(),
{
    if exts.len() == 0 {
        Seq::<char>::empty()
    } else if exts.len() == 1 {
        if exts[0]@ == "*"@ {
            "任意类型"@
        } else {
            "."@ + escape_spec(exts[0]@)
        }
    } else {
        types_spec(exts.drop_last()) + " ."@ + escape_spec(exts.last()@)
    }
}

/// The label of a card's protection.
pub open spec fn protection_label(e: ReceiveEncryption) -> Seq<char> {
    match e {
        ReceiveEncryption::Unencrypted => "无需密码"@,
        ReceiveEncryption::Common => "通用加密"@,
        ReceiveEncryption::Custom => "单独加密"@,
    }
}

/// The body of the upload page of a card.
pub open spec fn receive_body_spec(r: ReceiveSession, password_required: bool) -> Seq<char> {
    brand_spec() + "<p class=\"page-title\">"@ + escape_spec(r.name@)
        + "</p><p class=\"page-sub\">允许的文件类型："@ + types_spec(r.extensions@)
        + "</p><p class=\"page-sub\">"@ + protection_label(r.encryption)
        + "</p><form id=\"upload-form\" class=\"upload\" data-target=\"/r/"@ + escape_spec(r.id@)
        + "/upload\"><input type=\"file\" id=\"upload-files\" multiple>"@ + (if password_required {
        "<input type=\"password\" id=\"upload-password\" placeholder=\"请输入密码\">"@
    } else {
        Seq::<char>::empty()
    }) + "<button type=\"submit\">上传</button></form><ul id=\"selected-list\" class=\"list\"></ul>"@
        + UPLOAD_SCRIPT@
}

/// The upload page of a card.
pub open spec fn render_receive_page_spec(r: ReceiveSession, password_required: bool) -> Seq<
    char,
> {
    page_spec(r.name@ + " - 文件接收"@, receive_body_spec(r, password_required))
}

/// Each extension of a list as `.ext` (escaped), separated by spaces, in
/// the order of the list.
pub open spec fn dotted_list(exts: Seq<String>) -> Seq<char>
    decreases exts.len(),
{
    if exts.len() == 0 {
        Seq::<char>::empty()
    } else if exts.len() == 1 {
        "."@ + escape_spec(exts[0]@)
    } else {
        "."@ + escape_spec(exts[0]@) + " "@ + dotted_list(exts.drop_first())
    }
}

proof fn lemma_dotted_list_push(exts: Seq<String>, x: String)
    requires
        exts.len() > 0,
    ensures
        dotted_list(exts.push(x)) == dotted_list(exts) + " ."@ + escape_spec(x@),
    decreases exts.len(),
{
    reveal_strlit(" .");
    reveal_strlit(" ");
    reveal_strlit(".");
    let e2 = exts.push(x);
    assert(e2[0] == exts[0]);
    if exts.len() == 1 {
        assert(e2.drop_first() =~= seq![x]);
        assert(dotted_list(seq![x]) == "."@ + escape_spec(x@));
        assert(" "@ + ("."@ + escape_spec(x@)) =~= " ."@ + escape_spec(x@));
        assert(dotted_list(e2) =~= dotted_list(exts) + " ."@ + escape_spec(x@));
    } else {
        assert(e2.drop_first() =~= exts.drop_first().push(x));
        lemma_dotted_list_push(exts.drop_first(), x);
        assert(dotted_list(e2) =~= dotted_list(exts) + " ."@ + escape_spec(x@));
    }
}

/// The allowed types of a card whose list does not start with `*` show
/// every extension of the list as `.ext`, escaped, in order, separated by
/// spaces, and nothing else.
pub proof fn lemma_types_list_every_extension(exts: Seq<String>)
    requires
        exts.len() > 0,
        exts[0]@ != "*"@,
    ensures
        types_spec(exts) == dotted_list(exts),
    decreases exts.len(),
{
    if exts.len() > 1 {
        let init = exts.drop_last();
        assert(init[0] == exts[0]);
        lemma_types_list_every_extension(init);
        lemma_dotted_list_push(init, exts.last());
        assert(init.push(exts.last()) =~= exts);
    }
}

/// The upload page of a card shows its allowed types after
/// `允许的文件类型：`, closed by `</p>`.
pub proof fn lemma_receive_page_shows_types(r: ReceiveSession, password_required: bool)
    ensures
        exists|x: Seq<char>, y: Seq<char>|
            render_receive_page_spec(r, password_required) == #[trigger] (x + "允许的文件类型："@
                + types_spec(r.extensions@) + "</p>"@ + y),
{
    reveal_strlit("</p><p class=\"page-sub\">允许的文件类型：");
    reveal_strlit("</p><p class=\"page-sub\">");
    reveal_strlit("允许的文件类型：");
    reveal_strlit("</p>");
    reveal_strlit("<p class=\"page-sub\">");
    let types = types_spec(r.extensions@);
    let head = brand_spec() + "<p class=\"page-title\">"@ + escape_spec(r.name@);
    let rest = "</p><p class=\"page-sub\">"@ + protection_label(r.encryption)
        + "</p><form id=\"upload-form\" class=\"upload\" data-target=\"/r/"@ + escape_spec(r.id@)
        + "/upload\"><input type=\"file\" id=\"upload-files\" multiple>"@ + (if password_required {
        "<input type=\"password\" id=\"upload-password\" placeholder=\"请输入密码\">"@
    } else {
        Seq::<char>::empty()
    }) + "<button type=\"submit\">上传</button></form><ul id=\"selected-list\" class=\"list\"></ul>"@
        + UPLOAD_SCRIPT@;
    let body = receive_body_spec(r, password_required);
    assert(body =~= head + "</p><p class=\"page-sub\">允许的文件类型："@ + types + rest);
    let title = r.name@ + " - 文件接收"@;
    let pre = "<!doctype html><html lang=\"zh-CN\"><head><meta charset=\"utf-8\"><meta name=\"viewport\" content=\"width=device-width,initial-scale=1\"><title>"@
        + escape_spec(title) + "</title><style>"@ + CSS@
        + "</style></head><body><main class=\"wrap\">"@;
    let post = "</main></body></html>"@;
    let page = render_receive_page_spec(r, password_required);
    assert(page =~= pre + body + post);
    let x = pre + head + "</p><p class=\"page-sub\">"@;
    let y = "<p class=\"page-sub\">"@ + protection_label(r.encryption)
        + "</p><form id=\"upload-form\" class=\"upload\" data-target=\"/r/"@ + escape_spec(r.id@)
        + "/upload\"><input type=\"file\" id=\"upload-files\" multiple>"@ + (if password_required {
        "<input type=\"password\" id=\"upload-password\" placeholder=\"请输入密码\">"@
    } else {
        Seq::<char>::empty()
    }) + "<button type=\"submit\">上传</button></form><ul id=\"selected-list\" class=\"list\"></ul>"@
        + UPLOAD_SCRIPT@ + post;
    assert(rest =~= "</p>"@ + ("<p class=\"page-sub\">"@ + protection_label(r.encryption)
        + "</p><form id=\"upload-form\" class=\"upload\" data-target=\"/r/"@ + escape_spec(r.id@)
        + "/upload\"><input type=\"file\" id=\"upload-files\" multiple>"@ + (if password_required {
        "<input type=\"password\" id=\"upload-password\" placeholder=\"请输入密码\">"@
    } else {
        Seq::<char>::empty()
    }) + "<button type=\"submit\">上传</button></form><ul id=\"selected-list\" class=\"list\"></ul>"@
        + UPLOAD_SCRIPT@));
    assert(page =~= x + "允许的文件类型："@ + types + "</p>"@ + y);
}

fn push_types(out: &mut String, exts: &Vec<String>)
    ensures
        final(out)@ == old(out)@ + types_spec(exts@),
{
    let ghost start = out@;
    let mut i: usize = 0;
    while i < exts.len()
        invariant
            i <= exts@.len(),
            out@ == start + types_spec(exts@.take(i as int)),
        decreases exts.len() - i,
    {
        let ghost t = exts@.take(i + 1);
        assert(t.drop_last() =~= exts@.take(i as int));
        assert(t.last() == exts@[i as int]);
        if i == 0 {
            assert(t.len() == 1 && t[0] == exts@[0]);
            proof {
                reveal_strlit("*");
            }
            if crate::text::str_eq(exts[0].as_str(), "*") {
                out.append("任意类型");
            } else {
                out.append(".");
                push_escaped(out, exts[0].as_str());
            }
        } else {
            out.append(" .");
            push_escaped(out, exts[i].as_str());
        }
        assert(out@ =~= start + types_spec(t));
        i = i + 1;
    }
    assert(exts@.take(i as int) =~= exts@);
}

/// Renders the upload page of the receive card `receiver`, with a password
/// field when `password_required`.
pub fn render_receive_page(receiver: &ReceiveSession, password_required: bool) -> (r: String)
    ensures
        r@ == render_receive_page_spec(*receiver, password_required),
{
    let mut body = String::new();
    push_brand(&mut body);
    body.append("<p class=\"page-title\">");
    push_escaped(&mut body, receiver.name.as_str());
    body.append("</p><p class=\"page-sub\">允许的文件类型：");
    push_types(&mut body, &receiver.extensions);
    body.append("</p><p class=\"page-sub\">");
    match receiver.encryption {
        ReceiveEncryption::Unencrypted => body.append("无需密码"),
        ReceiveEncryption::Common => body.append("通用加密"),
        ReceiveEncryption::Custom => body.append("单独加密"),
    }
    body.append("</p><form id=\"upload-form\" class=\"upload\" data-target=\"/r/");
    push_escaped(&mut body, receiver.id.as_str());
    body.append("/upload\"><input type=\"file\" id=\"upload-files\" multiple>");
    if password_required {
        body.append("<input type=\"password\" id=\"upload-password\" placeholder=\"请输入密码\">");
    }
    body.append("<button type=\"submit\">上传</button></form><ul id=\"selected-list\" class=\"list\"></ul>");
    body.append(UPLOAD_SCRIPT);
    assert(body@ =~= receive_body_spec(*receiver, password_required));
    let mut title = String::from_str(receiver.name.as_str());
    title.append(" - 文件接收");
    page(title.as_str(), body.as_str())
}

} // verus!
