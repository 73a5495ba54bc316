//! Receive cards: the rules for creating and editing them, who may upload
//! to them and which files they accept, and the checks an upload request
//! passes before its body is written to disk.
use vstd::prelude::*;
use vstd::utf8::encode_utf8;

use crate::http::{header_lookup, header_value, percent_decode, percent_decode_spec};
use crate::paths::{ext_spec, file_name_spec, simple_path, stem_spec};
use crate::state::{
    find_by_id, first_index, keys, lemma_first_index_facts, lookup, same_receiver,
    ReceiveEncryption, ReceiveSession, Registry,
};
use crate::text::{
    after_first, before_first, chars_of, dec, lower_range, lower_seq, parse_u64_range,
    parse_u64_spec, push_dec, range_eq, skip_leading, split_once_at, split_once_seq, str_eq,
    string_from, trim, trim_range, trim_seq, trim_start_char,
};

verus! {

/// The character views of a list of strings.
pub open spec fn views(v: Seq<String>) -> Seq<Seq<char>> {
    v.map_values(|s: String| s@)
}

/// The view of an optional string.
pub open spec fn opt_string_view(s: Option<String>) -> Option<Seq<char>> {
    match s {
        Some(x) => Some(x@),
        None => None,
    }
}

// ---------------------------------------------------------------------------
// File type lists
// ---------------------------------------------------------------------------
/// One entered extension, normalized: trimmed, without leading dots, in
/// ASCII lower case.
pub open spec fn norm_ext(raw: Seq<char>) -> Seq<char> {
    lower_seq(trim_start_char(trim_seq(raw), '.'))
}

/// Normalizing the entered extensions `exts` after `out` has been collected:
/// `*` anywhere accepts every file type, blanks are skipped, an extension
/// longer than 16 bytes is refused, duplicates are dropped, and an empty
/// result is refused.
pub open spec fn normalize_from(exts: Seq<Seq<char>>, out: Seq<Seq<char>>) -> Result<
    Seq<Seq<char>>,
    Seq<char>,
>
    decreases exts.len(),
{
    if exts.len() == 0 {
        if out.len() == 0 {
            Err("请至少指定一种文件类型"@)
        } else {
            Ok(out)
        }
    } else {
        let e = norm_ext(exts[0]);
        if e == "*"@ {
            Ok(seq!["*"@])
        } else if e.len() == 0 {
            normalize_from(exts.drop_first(), out)
        } else if encode_utf8(e).len() > 16 {
            Err("扩展名过长: "@ + e)
        } else if out.contains(e) {
            normalize_from(exts.drop_first(), out)
        } else {
            normalize_from(exts.drop_first(), out.push(e))
        }
    }
}

fn normalize_one(raw: &String) -> (r: String)
    ensures
        r@ == norm_ext(raw@),
{
    let v = chars_of(raw.as_str());
    assert(v@.subrange(0, v.len() as int) =~= raw@);
    let (lo, hi) = trim_range(&v, 0, v.len());
    let start = skip_leading(&v, lo, hi, '.');
    let lowered = lower_range(&v, start, hi);
    let r = string_from(&lowered, 0, lowered.len());
    assert(lowered@.subrange(0, lowered.len() as int) =~= lowered@);
    r
}

fn contains_string(list: &Vec<String>, e: &String) -> (b: bool)
    ensures
        b == views(list@).contains(e@),
{
    let mut i: usize = 0;
    while i < list.len()
        invariant
            i <= list@.len(),
            forall|j: int| 0 <= j < i ==> list@[j]@ != e@,
        decreases list.len() - i,
    {
        if list[i] == *e {
            assert(views(list@)[i as int] == e@);
            return true;
        }
        i = i + 1;
    }
    assert forall|j: int| 0 <= j < views(list@).len() implies views(list@)[j] != e@ by {
        assert(views(list@)[j] == list@[j]@);
    }
    false
}

/// Normalizes the file types of a receive card: `["*"]` when any entry is
/// `*`, else the distinct non-blank entries in order; refuses an entry
/// longer than 16 bytes and a list without any entry.
pub fn normalize_receive_extensions(extensions: Vec<String>) -> (r: Result<Vec<String>, String>)
    ensures
        match normalize_from(views(extensions@), Seq::empty()) {
            Ok(o) => r matches Ok(v) && views(v@) == o,
            Err(e) => r matches Err(x) && x@ == e,
        },
{
    let ghost all = views(extensions@);
    let mut out: Vec<String> = Vec::new();
    let mut i: usize = 0;
    assert(all.skip(0) =~= all);
    assert(views(out@) =~= Seq::<Seq<char>>::empty());
    while i < extensions.len()
        invariant
            i <= extensions@.len(),
            all == views(extensions@),
            normalize_from(all, Seq::empty()) == normalize_from(all.skip(i as int), views(out@)),
        decreases extensions.len() - i,
    {
        let ghost rest = all.skip(i as int);
        assert(rest[0] == extensions@[i as int]@);
        assert(rest.drop_first() =~= all.skip(i + 1));
        let ext = normalize_one(&extensions[i]);
        if str_eq(ext.as_str(), "*") {
            let mut star: Vec<String> = Vec::new();
            star.push(String::from_str("*"));
            assert(views(star@) =~= seq!["*"@]);
            return Ok(star);
        }
        if ext.as_str().is_empty() {
            i = i + 1;
            continue ;
        }
        if ext.as_str().as_bytes().len() > 16 {
            let mut msg = String::from_str("扩展名过长: ");
            msg.append(ext.as_str());
            return Err(msg);
        }
        if !contains_string(&out, &ext) {
            let ghost before = out@;
            let ghost e = ext@;
            out.push(ext);
            assert(views(out@) =~= views(before).push(e));
        }
        i = i + 1;
    }
    assert(all.skip(i as int) =~= Seq::<Seq<char>>::empty());
    if out.len() == 0 {
        return Err(String::from_str("请至少指定一种文件类型"));
    }
    Ok(out)
}

/// A normalized list of file types: `["*"]`, or distinct non-empty
/// extensions of at most 16 bytes.
pub open spec fn valid_extension_list(l: Seq<Seq<char>>) -> bool {
    &&& l.len() > 0
    &&& (l == seq!["*"@] || ((forall|i: int|
        0 <= i < l.len() ==> #[trigger] l[i].len() > 0 && encode_utf8(l[i]).len() <= 16 && l[i]
            != "*"@) && (forall|i: int, j: int| 0 <= i < j < l.len() ==> l[i] != l[j])))
}

/// What has been collected so far while normalizing.
pub open spec fn collected_ok(out: Seq<Seq<char>>) -> bool {
    &&& forall|i: int|
        0 <= i < out.len() ==> #[trigger] out[i].len() > 0 && encode_utf8(out[i]).len() <= 16
            && out[i] != "*"@
    &&& forall|i: int, j: int| 0 <= i < j < out.len() ==> out[i] != out[j]
}

/// Whatever is entered, an accepted list of file types is `["*"]` or holds
/// distinct, non-empty extensions of at most 16 bytes.
pub proof fn lemma_normalized_list_valid(exts: Seq<Seq<char>>, out: Seq<Seq<char>>)
    requires
        collected_ok(out),
    ensures
        normalize_from(exts, out) matches Ok(l) ==> valid_extension_list(l),
    decreases exts.len(),
{
    if exts.len() > 0 {
        let e = norm_ext(exts[0]);
        if e == "*"@ {
        } else if e.len() == 0 || encode_utf8(e).len() > 16 || out.contains(e) {
            lemma_normalized_list_valid(exts.drop_first(), out);
        } else {
            let o2 = out.push(e);
            assert forall|i: int, j: int| 0 <= i < j < o2.len() implies o2[i] != o2[j] by {
                if j == out.len() {
                    assert(o2[i] == out[i]);
                    if o2[i] == e {
                        assert(out.contains(e));
                    }
                }
            }
            assert forall|i: int| 0 <= i < o2.len() implies #[trigger] o2[i].len() > 0
                && encode_utf8(o2[i]).len() <= 16 && o2[i] != "*"@ by {
                if i < out.len() {
                    assert(o2[i] == out[i]);
                }
            }
            lemma_normalized_list_valid(exts.drop_first(), o2);
        }
    }
}

// ---------------------------------------------------------------------------
// Creating and editing cards
// ---------------------------------------------------------------------------
/// The name of a card: trimmed, not blank, at most 40 characters.
pub open spec fn receiver_name_spec(name: Seq<char>) -> Result<Seq<char>, Seq<char>> {
    let n = trim_seq(name);
    if n.len() == 0 {
        Err("名称不能为空"@)
    } else if n.len() > 40 {
        Err("名称不能超过 40 个字符"@)
    } else {
        Ok(n)
    }
}

/// Checks the name of a card.
pub fn check_receiver_name(name: &str) -> (r: Result<String, String>)
    ensures
        match receiver_name_spec(name@) {
            Ok(n) => r matches Ok(x) && x@ == n,
            Err(e) => r matches Err(x) && x@ == e,
        },
{
    let n = trim(name);
    if n.as_str().is_empty() {
        return Err(String::from_str("名称不能为空"));
    }
    let count = chars_of(n.as_str()).len();
    if count > 40 {
        return Err(String::from_str("名称不能超过 40 个字符"));
    }
    Ok(n)
}

/// The protection chosen for a new card and the password stored with it.
pub open spec fn create_mode_spec(
    encryption: Seq<char>,
    custom_password: Option<Seq<char>>,
    common_configured: bool,
) -> Result<(ReceiveEncryption, Option<Seq<char>>), Seq<char>> {
    if encryption == "none"@ {
        Ok((ReceiveEncryption::Unencrypted, None))
    } else if encryption == "common"@ {
        if !common_configured {
            Err("请先在设置中配置通用加密密码"@)
        } else {
            Ok((ReceiveEncryption::Common, None))
        }
    } else if encryption == "custom"@ {
        let p = trim_seq(
            match custom_password {
                Some(x) => x,
                None => Seq::<char>::empty(),
            },
        );
        if p.len() == 0 {
            Err("单独加密必须设置密码"@)
        } else {
            Ok((ReceiveEncryption::Custom, Some(p)))
        }
    } else {
        Err("加密方式无效"@)
    }
}

/// The protection chosen when editing the card `existing` (absent when the
/// card is gone): a blank custom password keeps the stored one.
pub open spec fn update_mode_spec(
    encryption: Seq<char>,
    custom_password: Option<Seq<char>>,
    common_configured: bool,
    existing: Option<ReceiveSession>,
) -> Result<(ReceiveEncryption, Option<Seq<char>>), Seq<char>> {
    if encryption == "custom"@ {
        let p = trim_seq(
            match custom_password {
                Some(x) => x,
                None => Seq::<char>::empty(),
            },
        );
        match existing {
            None => Err("接收卡片不存在"@),
            Some(x) => {
                let saved = if p.len() == 0 {
                    opt_string_view(x.custom_password)
                } else {
                    Some(p)
                };
                if saved is None {
                    Err("单独加密必须设置密码"@)
                } else {
                    Ok((ReceiveEncryption::Custom, saved))
                }
            },
        }
    } else {
        create_mode_spec(encryption, custom_password, common_configured)
    }
}

fn create_mode(encryption: &str, custom_password: &Option<String>, common_configured: bool) -> (r:
    Result<(ReceiveEncryption, Option<String>), String>)
    ensures
        match create_mode_spec(encryption@, opt_string_view(*custom_password), common_configured) {
            Ok((m, p)) => r matches Ok((m2, p2)) && m2 == m && opt_string_view(p2) == p,
            Err(e) => r matches Err(x) && x@ == e,
        },
{
    proof {
        reveal_strlit("none");
        reveal_strlit("common");
        reveal_strlit("custom");
    }
    if str_eq(encryption, "none") {
        Ok((ReceiveEncryption::Unencrypted, None))
    } else if str_eq(encryption, "common") {
        if !common_configured {
            Err(String::from_str("请先在设置中配置通用加密密码"))
        } else {
            Ok((ReceiveEncryption::Common, None))
        }
    } else if str_eq(encryption, "custom") {
        let password = match custom_password {
            Some(x) => trim(x.as_str()),
            None => String::new(),
        };
        assert(trim_seq(Seq::<char>::empty()) =~= Seq::<char>::empty());
        if password.as_str().is_empty() {
            Err(String::from_str("单独加密必须设置密码"))
        } else {
            Ok((ReceiveEncryption::Custom, Some(password)))
        }
    } else {
        Err(String::from_str("加密方式无效"))
    }
}

fn update_mode(
    encryption: &str,
    custom_password: &Option<String>,
    common_configured: bool,
    existing: Option<&ReceiveSession>,
) -> (r: Result<(ReceiveEncryption, Option<String>), String>)
    ensures
        match update_mode_spec(
            encryption@,
            opt_string_view(*custom_password),
            common_configured,
            match existing {
                Some(x) => Some(*x),
                None => None,
            },
        ) {
            Ok((m, p)) => r matches Ok((m2, p2)) && m2 == m && opt_string_view(p2) == p,
            Err(e) => r matches Err(x) && x@ == e,
        },
{
    proof {
        reveal_strlit("custom");
    }
    if !str_eq(encryption, "custom") {
        return create_mode(encryption, custom_password, common_configured);
    }
    let password = match custom_password {
        Some(x) => trim(x.as_str()),
        None => String::new(),
    };
    assert(trim_seq(Seq::<char>::empty()) =~= Seq::<char>::empty());
    match existing {
        None => Err(String::from_str("接收卡片不存在")),
        Some(x) => {
            let saved = if password.as_str().is_empty() {
                crate::storage::copy_opt_string(&x.custom_password)
            } else {
                Some(password)
            };
            if saved.is_none() {
                Err(String::from_str("单独加密必须设置密码"))
            } else {
                Ok((ReceiveEncryption::Custom, saved))
            }
        },
    }
}

/// The outcome of creating a card: its name, file types, protection and
/// stored password, or the error shown.
pub open spec fn create_receiver_spec(
    name: Seq<char>,
    extensions: Seq<Seq<char>>,
    encryption: Seq<char>,
    custom_password: Option<Seq<char>>,
    common_configured: bool,
) -> Result<(Seq<char>, Seq<Seq<char>>, ReceiveEncryption, Option<Seq<char>>), Seq<char>> {
    match receiver_name_spec(name) {
        Err(e) => Err(e),
        Ok(n) => match normalize_from(extensions, Seq::empty()) {
            Err(e) => Err(e),
            Ok(x) => match create_mode_spec(encryption, custom_password, common_configured) {
                Err(e) => Err(e),
                Ok((m, p)) => Ok((n, x, m, p)),
            },
        },
    }
}

/// Creates a receive card with the token `id` at time `created_at` and
/// stores it in `receivers`. `common_configured` tells whether a common
/// password is set.
pub fn create_receiver(
    receivers: &mut Registry<ReceiveSession>,
    name: &str,
    extensions: Vec<String>,
    encryption: &str,
    custom_password: Option<String>,
    common_configured: bool,
    id: String,
    created_at: i64,
) -> (r: Result<ReceiveSession, String>)
    ensures
        match create_receiver_spec(
            name@,
            views(extensions@),
            encryption@,
            opt_string_view(custom_password),
            common_configured,
        ) {
            Err(e) => r matches Err(x) && x@ == e && final(receivers).records() == old(
                receivers,
            ).records(),
            Ok((n, x, m, p)) => r matches Ok(s) && {
                &&& s.id == id
                &&& s.name@ == n
                &&& views(s.extensions@) == x
                &&& s.encryption == m
                &&& opt_string_view(s.custom_password) == p
                &&& s.created_at == created_at
                &&& s.received_count == 0
                &&& s.received_bytes == 0
                &&& final(receivers).get_spec(id@) matches Some(y) && same_receiver(y, s)
                &&& forall|other: Seq<char>|
                    other != id@ ==> #[trigger] final(receivers).get_spec(other) == old(
                        receivers,
                    ).get_spec(other)
            },
        },
{
    let name = match check_receiver_name(name) {
        Ok(n) => n,
        Err(e) => {
            return Err(e);
        },
    };
    let extensions = match normalize_receive_extensions(extensions) {
        Ok(x) => x,
        Err(e) => {
            return Err(e);
        },
    };
    let (mode, saved) = match create_mode(encryption, &custom_password, common_configured) {
        Ok(x) => x,
        Err(e) => {
            return Err(e);
        },
    };
    let session = ReceiveSession {
        id,
        name,
        extensions,
        encryption: mode,
        custom_password: saved,
        created_at,
        received_count: 0,
        received_bytes: 0,
    };
    receivers.insert(session.duplicate());
    Ok(session)
}

/// The outcome of editing the card `id`.
pub open spec fn update_receiver_spec(
    receivers: Seq<ReceiveSession>,
    id: Seq<char>,
    name: Seq<char>,
    extensions: Seq<Seq<char>>,
    encryption: Seq<char>,
    custom_password: Option<Seq<char>>,
    common_configured: bool,
) -> Result<(Seq<char>, Seq<Seq<char>>, ReceiveEncryption, Option<Seq<char>>), Seq<char>> {
    match receiver_name_spec(name) {
        Err(e) => Err(e),
        Ok(n) => match normalize_from(extensions, Seq::empty()) {
            Err(e) => Err(e),
            Ok(x) => match update_mode_spec(
                encryption,
                custom_password,
                common_configured,
                lookup(receivers, id),
            ) {
                Err(e) => Err(e),
                Ok((m, p)) => if lookup(receivers, id) is None {
                    Err("接收卡片不存在"@)
                } else {
                    Ok((n, x, m, p))
                },
            },
        },
    }
}

/// Editing a card to custom protection with a password that is not blank
/// stores exactly that password, trimmed, whatever the card held before;
/// only a blank password keeps the stored one. The edit succeeds whenever
/// the name, the file types and the card are valid and the password is not
/// blank.
pub proof fn lemma_update_custom_password(
    receivers: Seq<ReceiveSession>,
    id: Seq<char>,
    name: Seq<char>,
    extensions: Seq<Seq<char>>,
    password: Seq<char>,
    common_configured: bool,
)
    ensures
        match update_receiver_spec(
            receivers,
            id,
            name,
            extensions,
            "custom"@,
            Some(password),
            common_configured,
        ) {
            Ok((_, _, mode, saved)) => {
                &&& mode == ReceiveEncryption::Custom
                &&& trim_seq(password).len() > 0 ==> saved == Some(trim_seq(password))
                &&& trim_seq(password).len() == 0 ==> saved == opt_string_view(
                    lookup(receivers, id)->Some_0.custom_password,
                )
            },
            Err(_) => true,
        },
        receiver_name_spec(name) is Ok && normalize_from(extensions, Seq::empty()) is Ok && lookup(
            receivers,
            id,
        ) is Some && trim_seq(password).len() > 0 ==> update_receiver_spec(
            receivers,
            id,
            name,
            extensions,
            "custom"@,
            Some(password),
            common_configured,
        ) is Ok,
{
}

/// Edits the name, file types and protection of the card `id`, keeping its
/// token, creation time and counters.
pub fn update_receiver(
    receivers: &mut Registry<ReceiveSession>,
    id: &str,
    name: &str,
    extensions: Vec<String>,
    encryption: &str,
    custom_password: Option<String>,
    common_configured: bool,
) -> (r: Result<ReceiveSession, String>)
    ensures
        match update_receiver_spec(
            old(receivers).records(),
            id@,
            name@,
            views(extensions@),
            encryption@,
            opt_string_view(custom_password),
            common_configured,
        ) {
            Err(e) => r matches Err(x) && x@ == e && final(receivers).records() == old(
                receivers,
            ).records(),
            Ok((n, x, m, p)) => r matches Ok(s) && {
                let before = lookup(old(receivers).records(), id@)->Some_0;
                &&& s.id == before.id
                &&& s.name@ == n
                &&& views(s.extensions@) == x
                &&& s.encryption == m
                &&& opt_string_view(s.custom_password) == p
                &&& s.created_at == before.created_at
                &&& s.received_count == before.received_count
                &&& s.received_bytes == before.received_bytes
                &&& final(receivers).get_spec(id@) matches Some(y) && same_receiver(y, s)
                &&& forall|other: Seq<char>|
                    other != id@ ==> #[trigger] final(receivers).get_spec(other) == old(
                        receivers,
                    ).get_spec(other)
            },
        },
{
    let name = match check_receiver_name(name) {
        Ok(n) => n,
        Err(e) => {
            return Err(e);
        },
    };
    let extensions = match normalize_receive_extensions(extensions) {
        Ok(x) => x,
        Err(e) => {
            return Err(e);
        },
    };
    let (mode, saved) = match update_mode(
        encryption,
        &custom_password,
        common_configured,
        receivers.get(id),
    ) {
        Ok(x) => x,
        Err(e) => {
            return Err(e);
        },
    };
    let existing = match receivers.get(id) {
        Some(x) => x.duplicate(),
        None => {
            return Err(String::from_str("接收卡片不存在"));
        },
    };
    proof {
        crate::state::lemma_lookup_key(old(receivers).records(), id@);
    }
    let updated = ReceiveSession {
        id: existing.id,
        name,
        extensions,
        encryption: mode,
        custom_password: saved,
        created_at: existing.created_at,
        received_count: existing.received_count,
        received_bytes: existing.received_bytes,
    };
    receivers.insert(updated.duplicate());
    Ok(updated)
}

/// Counts one more upload of `bytes` bytes on the card `id` and returns the
/// updated card (`None`, changing nothing, when there is no such card). The
/// counters wrap around at 2^64.
pub fn record_receive(receivers: &mut Registry<ReceiveSession>, id: &str, bytes: u64) -> (r: Option<
    ReceiveSession,
>)
    ensures
        match old(receivers).get_spec(id@) {
            None => r is None && final(receivers).records() == old(receivers).records(),
            Some(before) => r matches Some(s) && {
                &&& s.id == before.id
                &&& s.name == before.name
                &&& s.extensions@ == before.extensions@
                &&& s.encryption == before.encryption
                &&& s.custom_password == before.custom_password
                &&& s.created_at == before.created_at
                &&& s.received_count == (before.received_count + 1) % 0x1_0000_0000_0000_0000
                &&& s.received_bytes == (before.received_bytes + bytes) % 0x1_0000_0000_0000_0000
                &&& final(receivers).get_spec(id@) matches Some(y) && same_receiver(y, s)
                &&& forall|other: Seq<char>|
                    other != id@ ==> #[trigger] final(receivers).get_spec(other) == old(
                        receivers,
                    ).get_spec(other)
            },
        },
{
    let existing = match receivers.get(id) {
        Some(x) => x.duplicate(),
        None => {
            return None;
        },
    };
    proof {
        crate::state::lemma_lookup_key(old(receivers).records(), id@);
    }
    let mut updated = existing;
    updated.received_count = updated.received_count.wrapping_add(1);
    updated.received_bytes = updated.received_bytes.wrapping_add(bytes);
    receivers.insert(updated.duplicate());
    Some(updated)
}

// ---------------------------------------------------------------------------
// Who may upload what
// ---------------------------------------------------------------------------
/// Whether the password given with an upload opens the card. `common` is
/// the configured common password (trimmed, absent when blank).
pub open spec fn password_matches_spec(
    receiver: ReceiveSession,
    provided: Seq<char>,
    common: Option<Seq<char>>,
) -> bool {
    match receiver.encryption {
        ReceiveEncryption::Unencrypted => true,
        ReceiveEncryption::Common => common == Some(provided),
        ReceiveEncryption::Custom => opt_string_view(receiver.custom_password) == Some(provided),
    }
}

/// Checks the password given with an upload.
pub fn receiver_password_matches(
    receiver: &ReceiveSession,
    provided: &str,
    common: Option<&str>,
) -> (b: bool)
    ensures
        b == password_matches_spec(
            *receiver,
            provided@,
            match common {
                Some(c) => Some(c@),
                None => None,
            },
        ),
{
    match receiver.encryption {
        ReceiveEncryption::Unencrypted => true,
        ReceiveEncryption::Common => match common {
            Some(c) => str_eq(c, provided),
            None => false,
        },
        ReceiveEncryption::Custom => match &receiver.custom_password {
            Some(p) => str_eq(p.as_str(), provided),
            None => false,
        },
    }
}

/// Whether a card takes a file with extension `ext` (`None`: no extension):
/// every file when its list holds `*`, else those whose lower-cased
/// extension is listed.
pub open spec fn extension_allowed_spec(receiver: ReceiveSession, ext: Option<Seq<char>>) -> bool {
    let e = lower_seq(
        match ext {
            Some(x) => x,
            None => Seq::<char>::empty(),
        },
    );
    views(receiver.extensions@).contains("*"@) || views(receiver.extensions@).contains(e)
}

/// Checks a file extension against the card's list.
pub fn extension_allowed(receiver: &ReceiveSession, ext: Option<&str>) -> (b: bool)
    ensures
        b == extension_allowed_spec(
            *receiver,
            match ext {
                Some(x) => Some(x@),
                None => None,
            },
        ),
{
    let star = String::from_str("*");
    if contains_string(&receiver.extensions, &star) {
        return true;
    }
    let e = match ext {
        Some(x) => {
            let v = chars_of(x);
            let l = lower_range(&v, 0, v.len());
            assert(v@.subrange(0, v.len() as int) =~= x@);
            assert(l@.subrange(0, l.len() as int) =~= l@);
            string_from(&l, 0, l.len())
        },
        None => String::new(),
    };
    proof {
        match ext {
            Some(x) => {},
            None => {
                assert(lower_seq(Seq::<char>::empty()) =~= Seq::<char>::empty());
            },
        }
    }
    contains_string(&receiver.extensions, &e)
}

/// Whether a card takes a file: always when its list holds `*`; for a file
/// whose path every platform reads alike, by the extension of its last
/// component; otherwise undecided here, as `std::path` decides.
pub open spec fn type_ok(receiver: ReceiveSession, filename: Seq<char>) -> Option<bool> {
    if views(receiver.extensions@).contains("*"@) {
        Some(true)
    } else if simple_path(filename) {
        Some(extension_allowed_spec(receiver, ext_spec(file_name_spec(filename))))
    } else {
        None
    }
}

/// Whether a card takes the file `filename`, judged by the extension
/// `std::path` finds in it. A card whose list holds `*` takes every file.
pub fn receiver_allows_extension(receiver: &ReceiveSession, filename: &str) -> (b: bool)
    ensures
        views(receiver.extensions@).contains("*"@) ==> b,
        type_ok(*receiver, filename@) matches Some(t) ==> b == t,
        exists|ext: Option<Seq<char>>| b == #[trigger] extension_allowed_spec(*receiver, ext),
{
    let ext = crate::paths::path_extension(filename);
    let b = match &ext {
        Some(x) => extension_allowed(receiver, Some(x.as_str())),
        None => extension_allowed(receiver, None),
    };
    proof {
        let e: Option<Seq<char>> = match ext {
            Some(x) => Some(x@),
            None => None,
        };
        assert(b == extension_allowed_spec(*receiver, e));
    }
    b
}

// ---------------------------------------------------------------------------
// Upload requests
// ---------------------------------------------------------------------------
/// A refused upload: the status code and the message of the JSON reply.
#[derive(Debug)]
pub struct Rejection {
    pub code: u16,
    pub message: String,
}

/// Whether `r` is the refusal `code` with `message`.
pub open spec fn is_rejection(r: Rejection, code: u16, message: Seq<char>) -> bool {
    r.code == code && r.message@ == message
}

/// Which card an upload to `target` is for: the token from
/// `/r/<id>/upload`, or the refusal.
pub open spec fn upload_target_spec(target: Seq<char>) -> Result<Seq<char>, (u16, Seq<char>)> {
    let t = trim_start_char(before_first(target, '?'), '/');
    if before_first(t, '/') != "r"@ {
        Err((404, "上传地址无效"@))
    } else {
        match split_once_seq(t, '/') {
            None => Err((400, "缺少接收卡片 ID"@)),
            Some((_, rest)) => {
                let id = before_first(rest, '/');
                if id.len() == 0 {
                    Err((400, "缺少接收卡片 ID"@))
                } else if after_first(rest, '/') != "upload"@ {
                    Err((404, "上传地址无效"@))
                } else {
                    Ok(id)
                }
            },
        }
    }
}

/// Which card an upload request may write to: the position of the card, or
/// the refusal. `common` is the configured common password.
pub open spec fn authorize_upload_spec(
    target: Seq<char>,
    headers: Seq<(String, String)>,
    receivers: Seq<ReceiveSession>,
    common: Option<Seq<char>>,
) -> Result<int, (u16, Seq<char>)> {
    match upload_target_spec(target) {
        Err(e) => Err(e),
        Ok(id) => match first_index(keys(receivers), id) {
            None => Err((404, "接收卡片不存在或已删除"@)),
            Some(i) => {
                let provided = match header_lookup(headers, "x-upload-password"@) {
                    Some(p) => p,
                    None => Seq::<char>::empty(),
                };
                if !password_matches_spec(receivers[i], provided, common) {
                    Err((403, "密码错误"@))
                } else {
                    Ok(i)
                }
            },
        },
    }
}

fn reject(code: u16, message: &str) -> (r: Rejection)
    ensures
        is_rejection(r, code, message@),
{
    Rejection { code, message: String::from_str(message) }
}

/// The token an upload to `target` names, or the refusal.
fn upload_target(target: &str) -> (r: Result<String, Rejection>)
    ensures
        match upload_target_spec(target@) {
            Ok(id) => r matches Ok(s) && s@ == id,
            Err((code, msg)) => r matches Err(x) && is_rejection(x, code, msg),
        },
{
    let v = chars_of(target);
    let n = v.len();
    assert(v@.subrange(0, n as int) =~= target@);
    let end = match split_once_at(&v, 0, n, '?') {
        Some(q) => q,
        None => n,
    };
    assert(v@.subrange(0, end as int) == before_first(target@, '?'));
    let lo = skip_leading(&v, 0, end, '/');
    let ghost t = trim_start_char(before_first(target@, '?'), '/');
    assert(v@.subrange(lo as int, end as int) == t);
    let first_end = match split_once_at(&v, lo, end, '/') {
        Some(c) => c,
        None => end,
    };
    assert(v@.subrange(lo as int, first_end as int) == before_first(t, '/'));
    let r_lit = chars_of("r");
    if !range_eq(&v, lo, first_end, &r_lit) {
        return Err(reject(404, "上传地址无效"));
    }
    if first_end == end {
        return Err(reject(400, "缺少接收卡片 ID"));
    }
    let rest_lo = first_end + 1;
    let ghost rest = v@.subrange(rest_lo as int, end as int);
    assert(split_once_seq(t, '/') == Some((before_first(t, '/'), rest)));
    let (id_end, third_lo) = match split_once_at(&v, rest_lo, end, '/') {
        Some(c) => (c, c + 1),
        None => (end, end),
    };
    assert(v@.subrange(rest_lo as int, id_end as int) == before_first(rest, '/'));
    assert(v@.subrange(third_lo as int, end as int) =~= after_first(rest, '/'));
    if id_end == rest_lo {
        return Err(reject(400, "缺少接收卡片 ID"));
    }
    let upload_lit = chars_of("upload");
    if !range_eq(&v, third_lo, end, &upload_lit) {
        return Err(reject(404, "上传地址无效"));
    }
    Ok(string_from(&v, rest_lo, id_end))
}

/// Finds the card an upload request is for and checks its password.
pub fn authorize_upload(
    target: &str,
    headers: &[(String, String)],
    receivers: &[ReceiveSession],
    common: Option<&str>,
) -> (r: Result<usize, Rejection>)
    ensures
        match authorize_upload_spec(
            target@,
            headers@,
            receivers@,
            match common {
                Some(c) => Some(c@),
                None => None,
            },
        ) {
            Ok(i) => r matches Ok(j) && j == i,
            Err((code, msg)) => r matches Err(x) && is_rejection(x, code, msg),
        },
        r matches Ok(j) ==> j < receivers@.len(),
{
    let id = match upload_target(target) {
        Ok(id) => id,
        Err(e) => {
            return Err(e);
        },
    };
    let v = chars_of(id.as_str());
    assert(v@.subrange(0, v.len() as int) =~= id@);
    proof {
        lemma_first_index_facts(keys(receivers@), id@);
    }
    let index = match find_by_id(receivers, &v, 0, v.len()) {
        Some(i) => i,
        None => {
            return Err(reject(404, "接收卡片不存在或已删除"));
        },
    };
    let provided = match header_value(headers, "x-upload-password") {
        Some(p) => p,
        None => String::new(),
    };
    if !receiver_password_matches(&receivers[index], provided.as_str(), common) {
        return Err(reject(403, "密码错误"));
    }
    Ok(index)
}

/// The declared body length of an upload, or the refusal: a missing or
/// unreadable `Content-Length` and an empty body are refused.
pub open spec fn upload_length_spec(headers: Seq<(String, String)>) -> Result<u64, (u16, Seq<char>)> {
    match header_lookup(headers, "content-length"@) {
        None => Err((411, "缺少 Content-Length"@)),
        Some(v) => match parse_u64_spec(trim_seq(v)) {
            None => Err((411, "缺少 Content-Length"@)),
            Some(n) => if n == 0 {
                Err((400, "文件内容为空"@))
            } else {
                Ok(n)
            },
        },
    }
}

/// Reads the declared body length of an upload.
pub fn upload_content_length(headers: &[(String, String)]) -> (r: Result<u64, Rejection>)
    ensures
        match upload_length_spec(headers@) {
            Ok(n) => r matches Ok(m) && m == n,
            Err((code, msg)) => r matches Err(x) && is_rejection(x, code, msg),
        },
{
    let raw = match header_value(headers, "content-length") {
        Some(v) => v,
        None => {
            return Err(reject(411, "缺少 Content-Length"));
        },
    };
    let v = chars_of(raw.as_str());
    assert(v@.subrange(0, v.len() as int) =~= raw@);
    let (lo, hi) = trim_range(&v, 0, v.len());
    let n = match parse_u64_range(&v, lo, hi) {
        Some(n) => n,
        None => {
            return Err(reject(411, "缺少 Content-Length"));
        },
    };
    if n == 0 {
        return Err(reject(400, "文件内容为空"));
    }
    Ok(n)
}

/// The name an uploaded file is saved under, as far as it does not depend
/// on the platform: `upload.bin` when the `X-File-Name` header is missing or
/// does not decode; for a decoded path that every platform reads alike, its
/// last component, or `upload.bin` when that is blank; otherwise undecided
/// here, as `std::path` decides.
pub open spec fn upload_name_spec(headers: Seq<(String, String)>) -> Option<Seq<char>> {
    match header_lookup(headers, "x-file-name"@) {
        None => Some("upload.bin"@),
        Some(h) => match percent_decode_spec(h) {
            None => Some("upload.bin"@),
            Some(d) => if simple_path(d) {
                if trim_seq(file_name_spec(d)).len() == 0 {
                    Some("upload.bin"@)
                } else {
                    Some(file_name_spec(d))
                }
            } else {
                None
            },
        },
    }
}

/// The name an uploaded file is saved under: the last component of the
/// percent-decoded `X-File-Name` header, or `upload.bin` when the header is
/// missing or undecodable or the name is blank.
pub fn upload_filename(headers: &[(String, String)]) -> (r: String)
    ensures
        r@ == "upload.bin"@ || trim_seq(r@).len() > 0,
        upload_name_spec(headers@) matches Some(n) ==> r@ == n,
{
    let raw = match header_value(headers, "x-file-name") {
        Some(v) => v,
        None => {
            return String::from_str("upload.bin");
        },
    };
    let decoded = match percent_decode(raw.as_str()) {
        Ok(d) => d,
        Err(_) => {
            return String::from_str("upload.bin");
        },
    };
    match crate::paths::path_file_name(decoded.as_str()) {
        Some(name) => {
            if trim(name.as_str()).as_str().is_empty() {
                String::from_str("upload.bin")
            } else {
                name
            }
        },
        None => String::from_str("upload.bin"),
    }
}

/// An accepted upload: the card it goes to, the file name and the body
/// length.
#[derive(Debug)]
pub struct UploadPlan {
    pub index: usize,
    pub filename: String,
    pub content_length: u64,
}

/// The message of the refusal of a file type.
pub open spec fn type_refused_message(filename: Seq<char>) -> Seq<char> {
    "不允许上传此文件类型: "@ + filename
}

/// What an authorized upload to the card `card` at position `i` is
/// answered: the plan names the card, the declared length and the file
/// name; a file type the card does not take is refused with 415 before the
/// length is looked at; otherwise a missing, unreadable or zero length is
/// refused. Where the name or its type is left to `std::path`, the name and
/// the decision are only bound by what is stated of them.
pub open spec fn plan_outcome(
    r: Result<UploadPlan, Rejection>,
    i: int,
    headers: Seq<(String, String)>,
    card: ReceiveSession,
) -> bool {
    let name = upload_name_spec(headers);
    &&& match r {
        Ok(p) => {
            &&& p.index == i
            &&& upload_length_spec(headers) == Ok::<u64, (u16, Seq<char>)>(p.content_length)
            &&& (p.filename@ == "upload.bin"@ || trim_seq(p.filename@).len() > 0)
            &&& (name matches Some(n) ==> p.filename@ == n)
            &&& type_ok(card, p.filename@) != Some(false)
        },
        Err(x) => {
            ||| (x.code == 415 && exists|f: Seq<char>|
                x.message@ == #[trigger] type_refused_message(f) && type_ok(card, f) != Some(true)
                    && (name matches Some(n) ==> f == n))
            ||| match upload_length_spec(headers) {
                Err((code, msg)) => is_rejection(x, code, msg),
                Ok(_) => false,
            }
        },
    }
    &&& match name {
        Some(n) => type_ok(card, n) == Some(false) ==> (r matches Err(x) && x.code == 415
            && x.message@ == type_refused_message(n)),
        None => true,
    }
    &&& (views(card.extensions@).contains("*"@) || match name {
        Some(n) => type_ok(card, n) == Some(true),
        None => false,
    }) ==> match upload_length_spec(headers) {
        Ok(len) => r matches Ok(p) && p.content_length == len,
        Err((code, msg)) => r matches Err(x) && is_rejection(x, code, msg),
    }
}

/// Checks an upload request before its body is read: the card, the
/// password, the file name and type, and the body length.
pub fn plan_receive_upload(
    target: &str,
    headers: &[(String, String)],
    receivers: &[ReceiveSession],
    common: Option<&str>,
) -> (r: Result<UploadPlan, Rejection>)
    ensures
        match authorize_upload_spec(
            target@,
            headers@,
            receivers@,
            match common {
                Some(c) => Some(c@),
                None => None,
            },
        ) {
            Err((code, msg)) => r matches Err(x) && is_rejection(x, code, msg),
            Ok(i) => plan_outcome(r, i, headers@, receivers@[i]),
        },
{
    let index = match authorize_upload(target, headers, receivers, common) {
        Ok(i) => i,
        Err(e) => {
            return Err(e);
        },
    };
    let filename = upload_filename(headers);
    if !receiver_allows_extension(&receivers[index], filename.as_str()) {
        let mut msg = String::from_str("不允许上传此文件类型: ");
        msg.append(filename.as_str());
        assert(msg@ == type_refused_message(filename@));
        return Err(Rejection { code: 415, message: msg });
    }
    let content_length = match upload_content_length(headers) {
        Ok(n) => n,
        Err(e) => {
            return Err(e);
        },
    };
    Ok(UploadPlan { index, filename, content_length })
}

/// The message of a successful upload.
pub fn upload_saved_message(filename: &str) -> (r: String)
    ensures
        r@ == filename@ + " 已保存"@,
{
    let mut msg = String::from_str(filename);
    msg.append(" 已保存");
    msg
}

// ---------------------------------------------------------------------------
// Names for a file that already exists
// ---------------------------------------------------------------------------
/// `stem (index).ext`, or `stem (index)` without an extension.
pub open spec fn numbered_name_spec(stem: Seq<char>, ext: Seq<char>, index: u64) -> Seq<char> {
    if ext.len() == 0 {
        stem + " ("@ + dec(index as nat) + ")"@
    } else {
        stem + " ("@ + dec(index as nat) + ")."@ + ext
    }
}

/// The name tried for the `index`-th copy of a file with stem `stem` and
/// extension `ext`.
pub fn numbered_name(stem: &str, ext: &str, index: u64) -> (r: String)
    ensures
        r@ == numbered_name_spec(stem@, ext@, index),
{
    let mut out = String::from_str(stem);
    out.append(" (");
    push_dec(&mut out, index);
    if ext.is_empty() {
        out.append(")");
    } else {
        out.append(").");
        out.append(ext);
    }
    out
}

/// The name tried at step `step` of the search for a free name for an
/// upload: the file's own name first, then its numbered copies from 1 on.
pub fn receive_candidate(filename: &str, step: u64) -> (r: String)
    ensures
        step == 0 ==> r@ == filename@,
        step > 0 && simple_path(filename@) ==> r@ == numbered_name_spec(
            stem_spec(file_name_spec(filename@)),
            match ext_spec(file_name_spec(filename@)) {
                Some(e) => e,
                None => Seq::<char>::empty(),
            },
            step,
        ),
        step > 0 ==> exists|stem: Seq<char>, ext: Seq<char>| r@ == #[trigger] numbered_name_spec(
            stem,
            ext,
            step,
        ),
{
    if step == 0 {
        String::from_str(filename)
    } else {
        numbered_file_name(filename, step)
    }
}

/// The name tried for the `index`-th copy of `filename`, with the stem
/// (`file` when there is none) and extension `std::path` finds in it.
pub fn numbered_file_name(filename: &str, index: u64) -> (r: String)
    ensures
        exists|stem: Seq<char>, ext: Seq<char>| r@ == #[trigger] numbered_name_spec(stem, ext, index),
        simple_path(filename@) ==> r@ == numbered_name_spec(
            stem_spec(file_name_spec(filename@)),
            match ext_spec(file_name_spec(filename@)) {
                Some(e) => e,
                None => Seq::<char>::empty(),
            },
            index,
        ),
{
    let stem = match crate::paths::path_file_stem(filename) {
        Some(s) => s,
        None => String::from_str("file"),
    };
    let ext = match crate::paths::path_extension(filename) {
        Some(e) => e,
        None => String::new(),
    };
    numbered_name(stem.as_str(), ext.as_str(), index)
}

} // verus!
