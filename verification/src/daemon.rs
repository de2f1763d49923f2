//! The daemon's options and the small decisions its handlers make on
//! request values. Serving HTTP, the poll thread and the store are the
//! caller's.

use sha2::Digest;
use vstd::prelude::*;

use crate::text::{chars_of, debug_quoted, debug_str, push_char, push_str, str_eq};

verus! {

pub struct Opts {
    /// `--bind auto`: loopback plus the tailnet address when there is one.
    pub bind_auto: bool,
    /// Open the browser once the row is claimed.
    pub open_browser: bool,
    /// A pinned port: bind failure is an error, never a silent ephemeral
    /// fallback.
    pub port: Option<u16>,
}

/// `--bind auto` or `--bind loopback`.
pub open spec fn parse_bind_spec(bind: Seq<char>) -> Result<bool, Seq<char>> {
    if bind == "auto"@ {
        Ok(true)
    } else if bind == "loopback"@ {
        Ok(false)
    } else {
        Err("--bind takes `auto` or `loopback`, not "@ + debug_str(bind))
    }
}

pub fn parse_bind(bind: &str) -> (r: Result<bool, String>)
    ensures
        match (r, parse_bind_spec(bind@)) {
            (Ok(a), Ok(b)) => a == b,
            (Err(a), Err(b)) => a@ == b,
            _ => false,
        },
{
    if str_eq(bind, "auto") {
        Ok(true)
    } else if str_eq(bind, "loopback") {
        Ok(false)
    } else {
        let mut e = String::new();
        push_str(&mut e, "--bind takes `auto` or `loopback`, not ");
        push_str(&mut e, debug_quoted(bind).as_str());
        Err(e)
    }
}

// ---- attachment names --------------------------------------------------------------

/// `char::is_control`: the Cc category.
pub open spec fn is_control(c: char) -> bool {
    c <= '\u{1f}' || ('\u{7f}' <= c && c <= '\u{9f}')
}

/// What an uploaded file's name may keep of each character.
pub open spec fn safe_char(c: char) -> char {
    if is_control(c) || c == '/' || c == '\\' || c == ':' || c == '\0' {
        '_'
    } else {
        c
    }
}

/// The last `/`- or `\`-separated part of a name.
pub open spec fn last_part(s: Seq<char>) -> Seq<char>
    decreases s.len(),
{
    if s.len() == 0 {
        s
    } else if s.last() == '/' || s.last() == '\\' {
        Seq::empty()
    } else {
        last_part(s.drop_last()).push(s.last())
    }
}

/// Leading dots dropped.
pub open spec fn strip_dots(s: Seq<char>) -> Seq<char>
    decreases s.len(),
{
    if s.len() > 0 && s[0] == '.' {
        strip_dots(s.drop_first())
    } else {
        s
    }
}

/// A stored attachment's display name: the uploaded name's last path part,
/// control characters and separators replaced, at most 120 characters, no
/// leading dots — and `file` when nothing is left.
pub open spec fn sanitize_spec(raw: Seq<char>) -> Seq<char> {
    let part = last_part(raw);
    let mapped = part.map_values(|c: char| safe_char(c));
    let capped = if mapped.len() > 120 {
        mapped.take(120)
    } else {
        mapped
    };
    let name = strip_dots(capped);
    if name.len() == 0 {
        "file"@
    } else {
        name
    }
}

proof fn lemma_strip_dots_suffix(s: Seq<char>)
    ensures
        exists|k: int| 0 <= k <= s.len() && strip_dots(s) == s.skip(k),
        strip_dots(s).len() > 0 ==> strip_dots(s)[0] != '.',
    decreases s.len(),
{
    if s.len() > 0 && s[0] == '.' {
        lemma_strip_dots_suffix(s.drop_first());
        let k = choose|k: int| 0 <= k <= s.drop_first().len() && strip_dots(s.drop_first()) == s.drop_first().skip(k);
        assert(s.drop_first().skip(k) =~= s.skip(k + 1));
    } else {
        assert(s.skip(0) =~= s);
    }
}

/// An attachment's stored name is never navigable and never hidden: it is
/// not empty, at most 120 characters, starts with no dot, and holds no path
/// separator, colon or control character.
pub proof fn lemma_sanitized_name_is_safe(raw: Seq<char>)
    ensures
        0 < sanitize_spec(raw).len() <= 120,
        sanitize_spec(raw)[0] != '.',
        forall|i: int| 0 <= i < sanitize_spec(raw).len() ==> {
            let c = #[trigger] sanitize_spec(raw)[i];
            c != '/' && c != '\\' && c != ':' && !is_control(c)
        },
{
    let part = last_part(raw);
    let mapped = part.map_values(|c: char| safe_char(c));
    let capped = if mapped.len() > 120 { mapped.take(120) } else { mapped };
    lemma_strip_dots_suffix(capped);
    let k = choose|k: int| 0 <= k <= capped.len() && strip_dots(capped) == capped.skip(k);
    reveal_strlit("file");
    assert forall|i: int| 0 <= i < capped.len() implies {
        let c = #[trigger] capped[i];
        c != '/' && c != '\\' && c != ':' && !is_control(c)
    } by {
        assert(capped[i] == safe_char(part[i]));
    }
    if strip_dots(capped).len() > 0 {
        assert forall|i: int| 0 <= i < strip_dots(capped).len() implies strip_dots(capped)[i] == capped[i + k] by {}
    }
}

pub fn sanitize_filename(raw: &str) -> (r: String)
    ensures
        r@ == sanitize_spec(raw@),
{
    let v = chars_of(raw);
    // the last part starts after the last separator
    let mut start: usize = v.len();
    assert(last_part(v@) == last_part(v@.take(v.len() as int))) by {
        assert(v@.take(v.len() as int) =~= v@);
    }
    while start > 0 && v[start - 1] != '/' && v[start - 1] != '\\'
        invariant
            start <= v.len(),
            last_part(v@) == last_part(v@.take(start as int)) + v@.subrange(start as int, v.len() as int),
        decreases start,
    {
        assert(v@.take(start as int).drop_last() =~= v@.take(start - 1));
        assert(v@.subrange(start - 1, v.len() as int) =~= seq![v@[start - 1]] + v@.subrange(start as int, v.len() as int));
        start = start - 1;
    }
    assert(last_part(v@.take(start as int)) =~= Seq::<char>::empty()) by {
        if start > 0 {
            assert(v@.take(start as int).last() == v@[start - 1]);
        }
    }
    let ghost part = v@.subrange(start as int, v.len() as int);
    assert(last_part(v@) =~= part);
    let ghost mapped = part.map_values(|c: char| safe_char(c));
    let n: usize = if v.len() - start > 120 { start + 120 } else { v.len() };
    let ghost capped = if mapped.len() > 120 { mapped.take(120) } else { mapped };
    // leading dots of the capped name
    let mut a: usize = start;
    assert(strip_dots(capped) == strip_dots(capped.skip(0))) by {
        assert(capped.skip(0) =~= capped);
    }
    while a < n && v[a] == '.'
        invariant
            start <= a <= n <= v.len(),
            n - start == capped.len(),
            capped == if mapped.len() > 120 { mapped.take(120) } else { mapped },
            mapped == v@.subrange(start as int, v.len() as int).map_values(|c: char| safe_char(c)),
            strip_dots(capped) == strip_dots(capped.skip(a - start)),
        decreases n - a,
    {
        assert(capped.skip(a - start)[0] == safe_char(v@[a as int]));
        assert(capped.skip(a - start).drop_first() =~= capped.skip(a + 1 - start));
        a = a + 1;
    }
    let mut r = String::new();
    let mut i: usize = a;
    while i < n
        invariant
            a <= i <= n <= v.len(),
            start <= a,
            n - start == capped.len(),
            capped == if mapped.len() > 120 { mapped.take(120) } else { mapped },
            mapped == v@.subrange(start as int, v.len() as int).map_values(|c: char| safe_char(c)),
            r@ == capped.subrange(a - start, i - start),
        decreases n - i,
    {
        let c = v[i];
        let s = if (c <= '\u{1f}' || ('\u{7f}' <= c && c <= '\u{9f}')) || c == '/' || c == '\\' || c
            == ':' || c == '\0' {
            '_'
        } else {
            c
        };
        push_char(&mut r, s);
        i = i + 1;
        assert(r@ =~= capped.subrange(a - start, i - start));
    }
    proof {
        if a < n {
            assert(capped.skip(a - start)[0] == safe_char(v@[a as int]));
            assert(capped.skip(a - start)[0] != '.');
        }
        assert(strip_dots(capped.skip(a - start)) == capped.skip(a - start));
        assert(capped.skip(a - start) =~= capped.subrange(a - start, n - start));
    }
    if a == n {
        let mut f = String::new();
        push_str(&mut f, "file");
        return f;
    }
    r
}

// ---- what an upload is ---------------------------------------------------------------

/// The types an attachment card renders inline, known by their magic bytes.
pub open spec fn magic_mime(b: Seq<u8>) -> Option<Seq<char>> {
    if b.len() >= 4 && b[0] == 0x89 && b[1] == 0x50 && b[2] == 0x4e && b[3] == 0x47 {
        Some("image/png"@)
    } else if b.len() >= 3 && b[0] == 0xff && b[1] == 0xd8 && b[2] == 0xff {
        Some("image/jpeg"@)
    } else if b.len() >= 4 && b[0] == 0x47 && b[1] == 0x49 && b[2] == 0x46 && b[3] == 0x38 {
        Some("image/gif"@)
    } else if b.len() >= 12 && b[0] == 0x52 && b[1] == 0x49 && b[2] == 0x46 && b[3] == 0x46
        && b[8] == 0x57 && b[9] == 0x45 && b[10] == 0x42 && b[11] == 0x50 {
        Some("image/webp"@)
    } else if b.len() >= 4 && b[0] == 0x25 && b[1] == 0x50 && b[2] == 0x44 && b[3] == 0x46 {
        Some("application/pdf"@)
    } else if (b.len() >= 4 && b[0] == 0x3c && b[1] == 0x73 && b[2] == 0x76 && b[3] == 0x67) || (
    b.len() >= 5 && b[0] == 0x3c && b[1] == 0x3f && b[2] == 0x78 && b[3] == 0x6d && b[4] == 0x6c) {
        Some("image/svg+xml"@)
    } else {
        None
    }
}

fn magic_of(b: &[u8]) -> (r: Option<&'static str>)
    ensures
        match r {
            Some(m) => magic_mime(b@) == Some(m@),
            None => magic_mime(b@) is None,
        },
{
    let n = b.len();
    if n >= 4 && b[0] == 0x89 && b[1] == 0x50 && b[2] == 0x4e && b[3] == 0x47 {
        Some("image/png")
    } else if n >= 3 && b[0] == 0xff && b[1] == 0xd8 && b[2] == 0xff {
        Some("image/jpeg")
    } else if n >= 4 && b[0] == 0x47 && b[1] == 0x49 && b[2] == 0x46 && b[3] == 0x38 {
        Some("image/gif")
    } else if n >= 12 && b[0] == 0x52 && b[1] == 0x49 && b[2] == 0x46 && b[3] == 0x46 && b[8] == 0x57
        && b[9] == 0x45 && b[10] == 0x42 && b[11] == 0x50 {
        Some("image/webp")
    } else if n >= 4 && b[0] == 0x25 && b[1] == 0x50 && b[2] == 0x44 && b[3] == 0x46 {
        Some("application/pdf")
    } else if (n >= 4 && b[0] == 0x3c && b[1] == 0x73 && b[2] == 0x76 && b[3] == 0x67) || (n >= 5
        && b[0] == 0x3c && b[1] == 0x3f && b[2] == 0x78 && b[3] == 0x6d && b[4] == 0x6c) {
        Some("image/svg+xml")
    } else {
        None
    }
}

/// Names what `mime_guess::from_path(name).first_raw()` gives: the first
/// MIME type its table lists for the name's extension.
pub uninterp spec fn guessed_mime(name: Seq<char>) -> Option<Seq<char>>;

/// `mime_guess::from_path(name).first_raw()`. The guess reads only the
/// extension (`Path::extension`), so a name without one gets no guess.
#[verifier::external_body]
fn mime_from_name(name: &str) -> (r: Option<String>)
    ensures
        match r {
            Some(m) => guessed_mime(name@) == Some(m@),
            None => guessed_mime(name@) is None,
        },
        crate::config::path_extension(name@) is None ==> r is None,
{
    mime_guess::from_path(name).first_raw().map(|m| m.to_string())
}

/// An attachment's type: sniffed from its content, never trusted from the
/// client, for what renders inline; else guessed from the name's
/// extension; else honest octet-stream.
pub open spec fn sniff_spec(bytes: Seq<u8>, name: Seq<char>) -> Seq<char> {
    match magic_mime(bytes) {
        Some(m) => m,
        None => match guessed_mime(name) {
            Some(m) => m,
            None => "application/octet-stream"@,
        },
    }
}

pub fn sniff_mime(bytes: &[u8], name: &str) -> (r: String)
    ensures
        r@ == sniff_spec(bytes@, name@),
{
    let mut r = String::new();
    match magic_of(bytes) {
        Some(m) => push_str(&mut r, m),
        None => match mime_from_name(name) {
            Some(m) => push_str(&mut r, m.as_str()),
            None => push_str(&mut r, "application/octet-stream"),
        },
    }
    r
}

pub open spec fn is_lower_hex(c: char) -> bool {
    ('0' <= c && c <= '9') || ('a' <= c && c <= 'f')
}

/// Names the SHA-256 digest of some bytes, in lower-case hex.
pub uninterp spec fn sha256_hex(bytes: Seq<u8>) -> Seq<char>;

/// `sha2::Sha256` over the bytes, written with `{:x}`: the 32-byte digest as
/// 64 lower-case hex digits.
#[verifier::external_body]
fn sha256_of(bytes: &[u8]) -> (r: String)
    ensures
        r@ == sha256_hex(bytes@),
        r@.len() == 64,
        forall|i: int| 0 <= i < 64 ==> is_lower_hex(#[trigger] r@[i]),
{
    let mut h = sha2::Sha256::new();
    h.update(bytes);
    format!("{:x}", h.finalize())
}

/// What the upload endpoint hands back for a file: the name it is kept
/// under, its digest, its type and its size.
#[derive(Debug)]
pub struct UploadMeta {
    pub name: String,
    pub sha256: String,
    pub mime: String,
    pub bytes: usize,
}

/// An upload's metadata, or the refusal of an empty one.
pub fn upload_meta(raw_name: &str, body: &[u8]) -> (r: Result<UploadMeta, String>)
    ensures
        body@.len() == 0 <==> r is Err,
        r matches Err(e) ==> e@ == "empty attachment"@,
        r matches Ok(m) ==> m.name@ == sanitize_spec(raw_name@) && m.sha256@ == sha256_hex(body@)
            && m.mime@ == sniff_spec(body@, sanitize_spec(raw_name@)) && m.bytes == body@.len(),
{
    if body.len() == 0 {
        let mut e = String::new();
        push_str(&mut e, "empty attachment");
        return Err(e);
    }
    let name = sanitize_filename(raw_name);
    let sha256 = sha256_of(body);
    let mime = sniff_mime(body, name.as_str());
    Ok(UploadMeta { name, sha256, mime, bytes: body.len() })
}

/// Where an upload lives: `<sha8>/<name>` under the attachments directory —
/// the first eight digest digits are the dedupe address; on a prefix
/// collision with different content the full digest is the directory.
pub open spec fn upload_rel_spec(sha: Seq<char>, name: Seq<char>, collided: bool) -> Seq<char> {
    crate::models::ATTACHMENTS_PREFIX@ + (if collided { sha } else { sha.take(8) }) + "/"@ + name
}

pub fn upload_rel(meta: &UploadMeta, collided: bool) -> (r: String)
    requires
        meta.sha256@.len() == 64,
    ensures
        r@ == upload_rel_spec(meta.sha256@, meta.name@, collided),
{
    let mut r = String::new();
    push_str(&mut r, crate::models::ATTACHMENTS_PREFIX);
    if collided {
        push_str(&mut r, meta.sha256.as_str());
    } else {
        let v = chars_of(meta.sha256.as_str());
        crate::text::push_range(&mut r, &v, 0, 8);
        assert(v@.subrange(0, 8) =~= meta.sha256@.take(8));
    }
    push_str(&mut r, "/");
    push_str(&mut r, meta.name.as_str());
    r
}

// ---- the port and the addresses --------------------------------------------------------

/// The port to try first: the config's (canon, survives a deleted db), else
/// the one remembered in meta, else the crash-left daemon row's, else any.
pub open spec fn remembered_port_spec(cfg: Option<u16>, meta: Option<Seq<char>>, row: Option<u16>) -> u16 {
    match cfg {
        Some(p) => p,
        None => match (match meta {
            Some(m) => crate::text::parse_unsigned(m, 65535),
            None => None,
        }) {
            Some(p) => p as u16,
            None => match row {
                Some(p) => p,
                None => 0,
            },
        },
    }
}

pub fn remembered_port(cfg: Option<u16>, meta: Option<&str>, row: Option<u16>) -> (r: u16)
    ensures
        r == remembered_port_spec(cfg, crate::session::opt_str(meta), row),
{
    match cfg {
        Some(p) => p,
        None => {
            let parsed: Option<u16> = match meta {
                Some(m) => {
                    let v = chars_of(m);
                    assert(v@.subrange(0, v@.len() as int) =~= m@);
                    match crate::text::parse_u64_range(&v, 0, v.len()) {
                        Some(n) => if n <= 65535 {
                            Some(n as u16)
                        } else {
                            None
                        },
                        None => None,
                    }
                },
                None => None,
            };
            proof {
                if let Some(m) = meta {
                    let d = if m@.len() > 0 && m@[0] == '+' { m@.drop_first() } else { m@ };
                    if d.len() > 0 && crate::text::all_digits(d) {
                        assert(crate::text::digits_value(d) <= u64::MAX ==> true);
                    }
                }
            }
            match parsed {
                Some(p) => p,
                None => match row {
                    Some(p) => p,
                    None => 0,
                },
            }
        },
    }
}

/// The local URL of a daemon on a port.
pub open spec fn local_url_spec(port: u16) -> Seq<char> {
    "http://127.0.0.1:"@ + crate::text::dec(port as nat)
}

pub fn local_url(port: u16) -> (r: String)
    ensures
        r@ == local_url_spec(port),
{
    let mut r = String::new();
    push_str(&mut r, "http://127.0.0.1:");
    crate::text::push_dec(&mut r, port as u64);
    r
}

/// A tailnet URL: an IPv4 address as is, an IPv6 one in brackets.
pub open spec fn tailnet_url_spec(addr: Seq<char>, v6: bool, port: u16) -> Seq<char> {
    if v6 {
        "http://["@ + addr + "]:"@ + crate::text::dec(port as nat)
    } else {
        "http://"@ + addr + ":"@ + crate::text::dec(port as nat)
    }
}

pub fn tailnet_url(addr: &str, v6: bool, port: u16) -> (r: String)
    ensures
        r@ == tailnet_url_spec(addr@, v6, port),
{
    let mut r = String::new();
    if v6 {
        push_str(&mut r, "http://[");
        push_str(&mut r, addr);
        push_str(&mut r, "]:");
    } else {
        push_str(&mut r, "http://");
        push_str(&mut r, addr);
        push_str(&mut r, ":");
    }
    crate::text::push_dec(&mut r, port as u64);
    r
}

/// How a bound URL is announced: the first is the local one; the others
/// are tailnet addresses any tailnet node can read.
pub open spec fn url_line_spec(first: bool, url: Seq<char>) -> Seq<char> {
    if first {
        "local:   "@ + url
    } else {
        "tailnet: "@ + url + "      (any tailnet node can read this)"@
    }
}

pub fn url_line(first: bool, url: &str) -> (r: String)
    ensures
        r@ == url_line_spec(first, url@),
{
    let mut r = String::new();
    if first {
        push_str(&mut r, "local:   ");
        push_str(&mut r, url);
    } else {
        push_str(&mut r, "tailnet: ");
        push_str(&mut r, url);
        push_str(&mut r, "      (any tailnet node can read this)");
    }
    r
}

// ---- finding pages again --------------------------------------------------------------

/// What the rediscovery walk does with a directory.
#[derive(Debug)]
pub enum DirScan {
    /// Walk into it.
    Descend,
    /// Hidden trees, dependencies and build output stay unscanned.
    Skip,
    /// The store itself (or a directory holding it): only its pages.
    StorePages,
}

pub open spec fn dir_scan_spec(name: Seq<char>, holds_store: bool) -> DirScan {
    if (name.len() > 0 && name[0] == '.') || name == "node_modules"@ || name == "target"@ {
        if holds_store {
            DirScan::StorePages
        } else {
            DirScan::Skip
        }
    } else {
        DirScan::Descend
    }
}

pub fn dir_scan(name: &str, holds_store: bool) -> (r: DirScan)
    ensures
        r == dir_scan_spec(name@, holds_store),
{
    let v = chars_of(name);
    let hidden = v.len() > 0 && v[0] == '.';
    if hidden || str_eq(name, "node_modules") || str_eq(name, "target") {
        if holds_store {
            DirScan::StorePages
        } else {
            DirScan::Skip
        }
    } else {
        DirScan::Descend
    }
}

/// `str::trim_end_matches(".sv")`: every trailing `.sv` removed.
pub open spec fn strip_sv(s: Seq<char>) -> Seq<char>
    decreases s.len(),
{
    if s.len() >= 3 && s.subrange(s.len() - 3, s.len() as int) == ".sv"@ {
        strip_sv(s.subrange(0, s.len() - 3))
    } else {
        s
    }
}

/// Names what `percent_decode_str(s).decode_utf8_lossy()` gives.
pub uninterp spec fn pct_decoded(s: Seq<char>) -> Seq<char>;

/// `percent_encoding::percent_decode_str(s).decode_utf8_lossy()`. A `%` and
/// two hex digits become the byte they spell; every other byte stays, so a
/// name without `%` comes back as it went in.
#[verifier::external_body]
fn pct_decode(s: &str) -> (r: String)
    ensures
        r@ == pct_decoded(s@),
        (forall|i: int| 0 <= i < s@.len() ==> s@[i] != '%') ==> r@ == s@,
{
    percent_encoding::percent_decode_str(s).decode_utf8_lossy().to_string()
}

/// The page id a rediscovered `.sv` file binds under: a committed file by
/// its stem (V2.sv is page V2); a throwaway page by decoding its file name,
/// which is the encoded page id.
pub open spec fn rediscovered_id_spec(name: Seq<char>, throwaway: bool) -> Seq<char> {
    if throwaway {
        pct_decoded(strip_sv(name))
    } else {
        strip_sv(name)
    }
}

pub fn rediscovered_id(name: &str, throwaway: bool) -> (r: String)
    ensures
        r@ == rediscovered_id_spec(name@, throwaway),
{
    let v = chars_of(name);
    let mut n: usize = v.len();
    assert(v@.subrange(0, n as int) =~= v@);
    let sv = chars_of(".sv");
    while n >= 3 && crate::text::range_eq(&v, n - 3, n, &sv)
        invariant
            n <= v.len(),
            v@ == name@,
            sv@ == ".sv"@,
            strip_sv(name@) == strip_sv(v@.subrange(0, n as int)),
        decreases n,
    {
        assert(v@.subrange(0, n as int).subrange(n - 3, n as int) =~= v@.subrange(n - 3, n as int));
        assert(v@.subrange(0, n as int).subrange(0, n - 3) =~= v@.subrange(0, n - 3));
        n = n - 3;
    }
    proof {
        let t = v@.subrange(0, n as int);
        if n >= 3 {
            assert(t.subrange(n - 3, n as int) =~= v@.subrange(n - 3, n as int));
        }
    }
    let stem = crate::text::string_of_range(&v, 0, n);
    if throwaway {
        pct_decode(stem.as_str())
    } else {
        stem
    }
}

// ---- routing and the page shell -------------------------------------------------------

pub open spec fn is_max(order: Seq<(Seq<char>, i64)>, i: int) -> bool {
    forall|j: int| 0 <= j < order.len() ==> #[trigger] order[j].1 <= order[i].1
}

/// The page `/` redirects to is the most recently active one: the last of
/// the maximal entries, none for an empty project.
pub open spec fn last_max(order: Seq<(Seq<char>, i64)>, i: int) -> bool {
    &&& 0 <= i < order.len()
    &&& is_max(order, i)
    &&& forall|j: int| i < j < order.len() ==> #[trigger] order[j].1 < order[i].1
}

pub fn most_active(order: &Vec<(String, i64)>) -> (r: Option<usize>)
    ensures
        match r {
            Some(i) => last_max(crate::poll::order_view(order@), i as int),
            None => order.len() == 0,
        },
{
    let ghost ov = crate::poll::order_view(order@);
    if order.len() == 0 {
        return None;
    }
    let mut best: usize = 0;
    let mut i: usize = 1;
    while i < order.len()
        invariant
            1 <= i <= order.len(),
            best < i,
            ov == crate::poll::order_view(order@),
            last_max(ov.take(i as int), best as int),
        decreases order.len() - i,
    {
        assert(ov[i as int].1 == order@[i as int].1);
        assert(ov[best as int].1 == order@[best as int].1);
        if order[i].1 >= order[best].1 {
            best = i;
        }
        i = i + 1;
        assert(ov.take(i as int) =~= ov.take(i - 1).push(ov[i - 1]));
    }
    assert(ov.take(order.len() as int) =~= ov);
    Some(best)
}

/// Where `/` sends the browser: the page's route, its id encoded.
pub fn page_location(id: &str) -> (r: String)
    ensures
        r@ == "/p/"@ + crate::session::pct_encode(vstd::utf8::encode_utf8(id@)),
{
    let mut r = String::new();
    push_str(&mut r, "/p/");
    push_str(&mut r, crate::session::encode(id).as_str());
    r
}

/// The title a page is served with, because browser history is where
/// titles live: the page's label (else its id) and the project, unless the
/// project is itself called sideview or has no name.
pub open spec fn page_title_spec(project: Seq<char>, page: Option<(Seq<char>, Option<Seq<char>>)>) -> Seq<char> {
    let suffix = if project == "sideview"@ || project.len() == 0 {
        "sideview"@
    } else {
        project + " — sideview"@
    };
    match page {
        Some((id, label)) => (match label {
            Some(l) => l,
            None => id,
        }) + " · "@ + suffix,
        None => suffix,
    }
}

pub fn page_title(project: &str, page: Option<(&str, Option<&str>)>) -> (r: String)
    ensures
        r@ == page_title_spec(
            project@,
            match page {
                Some((id, label)) => Some((id@, crate::session::opt_str(label))),
                None => None,
            },
        ),
{
    let mut suffix = String::new();
    if str_eq(project, "sideview") || project.unicode_len() == 0 {
        push_str(&mut suffix, "sideview");
    } else {
        push_str(&mut suffix, project);
        push_str(&mut suffix, " — sideview");
    }
    match page {
        Some((id, label)) => {
            let mut r = String::new();
            match label {
                Some(l) => push_str(&mut r, l),
                None => push_str(&mut r, id),
            }
            push_str(&mut r, " · ");
            push_str(&mut r, suffix.as_str());
            r
        },
        None => suffix,
    }
}

/// The page shell as served: the title filled in (escaped), and the
/// stylesheet and script URLs stamped with the daemon's start so a restart
/// busts every cache.
pub open spec fn shell_spec(index: Seq<char>, title: Seq<char>, stamp: i64) -> Seq<char> {
    let v = crate::text::int_dec(stamp as int);
    crate::text::replace_all(
        crate::text::replace_all(
            crate::text::replace_all(index, "<title>sideview</title>"@, "<title>"@ + crate::text::esc_text(title) + "</title>"@),
            "/assets/sideview.css"@,
            "/assets/sideview.css?v="@ + v,
        ),
        "/assets/app.js"@,
        "/assets/app.js?v="@ + v,
    )
}

pub fn shell(index: &str, title: &str, stamp: i64) -> (r: String)
    ensures
        r@ == shell_spec(index@, title@, stamp),
{
    let mut t = String::new();
    push_str(&mut t, "<title>");
    crate::text::push_text_escaped(&mut t, title);
    push_str(&mut t, "</title>");
    let mut css = String::new();
    push_str(&mut css, "/assets/sideview.css?v=");
    crate::text::push_i64(&mut css, stamp);
    let mut js = String::new();
    push_str(&mut js, "/assets/app.js?v=");
    crate::text::push_i64(&mut js, stamp);
    proof {
        reveal_strlit("<title>sideview</title>");
        reveal_strlit("/assets/sideview.css");
        reveal_strlit("/assets/app.js");
    }
    let a = crate::text::replace_str(index, "<title>sideview</title>", t.as_str());
    let b = crate::text::replace_str(a.as_str(), "/assets/sideview.css", css.as_str());
    crate::text::replace_str(b.as_str(), "/assets/app.js", js.as_str())
}

// ---- project files ------------------------------------------------------------------------

/// `/f/` serves only relative paths without `..`; the store's internals
/// (the database and its journals, the daemon log, the spawn lock) never.
pub fn check_project_path(rel: &str) -> (r: Result<(), String>)
    ensures
        r is Ok <==> !crate::poll::outside_project(rel@),
        r matches Err(e) ==> e@ == "refusing "@ + crate::text::debug_str(rel@) + ": paths must be relative, inside the project"@,
{
    match crate::cli::check_promote_dest(rel) {
        Ok(()) => Ok(()),
        Err(_) => {
            let mut e = String::new();
            push_str(&mut e, "refusing ");
            push_str(&mut e, debug_quoted(rel).as_str());
            push_str(&mut e, ": paths must be relative, inside the project");
            Err(e)
        },
    }
}

pub open spec fn store_internal_spec(name: Seq<char>) -> bool {
    crate::text::starts_with(name, crate::store::DB_FILE@) || name == "daemon.log"@ || name
        == crate::store::SPAWN_LOCK@
}

pub fn is_store_internal(name: &str) -> (r: bool)
    ensures
        r == store_internal_spec(name@),
{
    let v = chars_of(name);
    let db = chars_of(crate::store::DB_FILE);
    crate::text::has_prefix(&v, &db) || str_eq(name, "daemon.log") || str_eq(name, crate::store::SPAWN_LOCK)
}

} // verus!
