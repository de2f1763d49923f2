//! The extension mechanism's working parts: serving an extension's entry
//! with the injections, and choosing the one binary it may run. Spawning the
//! binary and serving files belong to the caller; what is served and what
//! may run is decided here.

use serde_json::Map as JsonMap;
use serde_json::Value;
use vstd::prelude::*;

use crate::config::Extension;
use crate::text::{chars_of, debug_quoted, debug_str, push_str, starts_with};

verus! {

/// What `call_cli` resolves to in the frame.
pub struct CallResult {
    pub code: Option<i32>,
    pub stdout: String,
    pub stderr: String,
}

/// What a frame asks `call_cli` to run: arguments, and optionally stdin.
pub struct CallBody {
    pub args: Vec<String>,
    pub stdin: Option<String>,
}

/// Unix `PathBuf::join`: an absolute `b` replaces `a`; otherwise `b` goes
/// after `a`, with a `/` between unless `a` is empty or already ends in one.
pub open spec fn join_path(a: Seq<char>, b: Seq<char>) -> Seq<char> {
    if b.len() > 0 && b[0] == '/' {
        b
    } else if a.len() == 0 || a.last() == '/' {
        a + b
    } else {
        a + seq!['/'] + b
    }
}

pub fn join_path_of(a: &str, b: &str) -> (r: String)
    ensures
        r@ == join_path(a@, b@),
{
    let av = chars_of(a);
    let bv = chars_of(b);
    let mut r = String::new();
    if bv.len() > 0 && bv[0] == '/' {
        push_str(&mut r, b);
        return r;
    }
    push_str(&mut r, a);
    if !(av.len() == 0 || av[av.len() - 1] == '/') {
        crate::text::push_char(&mut r, '/');
    }
    push_str(&mut r, b);
    r
}

/// The manifest's `bin`, resolved: "./…" is relative to the extension's
/// directory under the project root, a bare name is left for PATH. Never
/// anything the caller chose — the frame picks arguments, the manifest picks
/// the executable.
pub open spec fn resolve_bin_spec(root: Seq<char>, name: Seq<char>, dir: Seq<char>, bin: Option<Seq<char>>) -> Result<Seq<char>, Seq<char>> {
    match bin {
        None => Err("extension "@ + debug_str(name) + " declares no bin"@),
        Some(b) => if starts_with(b, "./"@) {
            Ok(join_path(join_path(root, dir), b.skip(2)))
        } else {
            Ok(b)
        },
    }
}

pub fn resolve_bin(root: &str, ext: &Extension) -> (r: Result<String, String>)
    ensures
        match (r, resolve_bin_spec(root@, ext.manifest.name@, ext.dir@, crate::diff::opt_string(ext.manifest.bin))) {
            (Ok(a), Ok(b)) => a@ == b,
            (Err(a), Err(b)) => a@ == b,
            _ => false,
        },
{
    match &ext.manifest.bin {
        None => {
            let mut e = String::new();
            push_str(&mut e, "extension ");
            push_str(&mut e, debug_quoted(ext.manifest.name.as_str()).as_str());
            push_str(&mut e, " declares no bin");
            Err(e)
        },
        Some(b) => {
            let bv = chars_of(b.as_str());
            let dot = chars_of("./");
            if crate::text::has_prefix(&bv, &dot) {
                proof { reveal_strlit("./"); }
                assert(bv@.skip(2) =~= bv@.subrange(2, bv@.len() as int));
                let rel = crate::text::string_of_range(&bv, 2, bv.len());
                let d = join_path_of(root, ext.dir.as_str());
                Ok(join_path_of(d.as_str(), rel.as_str()))
            } else {
                Ok(b.clone())
            }
        },
    }
}

// ---- serving an entry --------------------------------------------------------------

/// The injected prelude's fixed parts, around the base and the block JSON.
pub const INJECT_HEAD: &'static str = r#"<base href=""#;
pub const INJECT_MID: &'static str = r#""><script>
window.SIDEVIEW_BLOCK = "#;
pub const INJECT_TAIL: &'static str = r#";
window.sideview = {
  async call_cli(args, opts = {}) {
    const r = await fetch('__call', { method: 'POST',
      headers: { 'Content-Type': 'application/json' },
      body: JSON.stringify({ args, stdin: opts.stdin ?? null }),
      signal: opts.signal });
    if (!r.ok) throw new Error(await r.text());
    return r.json();
  },
  call_cli_streaming(args, opts = {}) {
    return fetch('__call_stream', { method: 'POST',
      headers: { 'Content-Type': 'application/json' },
      body: JSON.stringify({ args, stdin: opts.stdin ?? null }),
      signal: opts.signal });
  },
};
(function () { try {
  var p = parent.document.documentElement;
  var sync = function () { document.documentElement.setAttribute(
    'data-bs-theme', p.getAttribute('data-bs-theme') || 'light'); };
  new MutationObserver(sync).observe(p, { attributes: true, attributeFilter: ['data-bs-theme'] });
  sync();
} catch (e) {} })();
</script>"#;

/// The serve-time injections: the opaque `<base>`, the block context, the
/// two-function API, and live theme mirroring.
pub open spec fn prelude_spec(base: Seq<char>, block_json: Seq<char>) -> Seq<char> {
    INJECT_HEAD@ + base + INJECT_MID@ + block_json + INJECT_TAIL@
}

/// What may follow `<head` in a head start tag: its `>` or ASCII
/// whitespace before attributes (so `<header>` is no head).
pub open spec fn ends_tag_name(c: char) -> bool {
    c == '>' || c == ' ' || c == '\t' || c == '\n' || c == '\r' || c == '\u{0C}'
}

/// `<head` (ASCII case ignored) followed by `>` or whitespace starts at `k`.
pub open spec fn head_tag_at(html: Seq<char>, k: int) -> bool {
    0 <= k && k + 6 <= html.len() && crate::config::lower_ascii(html.subrange(k, k + 5)) == "<head"@
        && ends_tag_name(html[k + 5])
}

/// Where the prelude goes: right after the first `<head>` start tag (ASCII
/// case ignored), so the base precedes every resource reference — or, with
/// no head, at the very start.
pub open spec fn head_at(html: Seq<char>, h: int) -> bool {
    head_tag_at(html, h) && forall|k: int| 0 <= k < h ==> !#[trigger] head_tag_at(html, k)
}

pub open spec fn close_at(html: Seq<char>, h: int, c: int) -> bool {
    h <= c < html.len() && html[c] == '>' && forall|k: int| h <= k < c ==> #[trigger] html[k] != '>'
}

pub open spec fn inject_spec(html: Seq<char>, base: Seq<char>, block_json: Seq<char>) -> Seq<char> {
    let p = prelude_spec(base, block_json);
    if exists|h: int| head_at(html, h) {
        let h = choose|h: int| head_at(html, h);
        if exists|c: int| close_at(html, h, c) {
            let c = choose|c: int| close_at(html, h, c);
            html.take(c + 1) + p + html.skip(c + 1)
        } else {
            p + html
        }
    } else {
        p + html
    }
}

fn head_is(v: &Vec<char>, k: usize) -> (r: bool)
    requires
        k + 6 <= v.len(),
    ensures
        r == head_tag_at(v@, k as int),
{
    proof { reveal_strlit("<head"); }
    let a = crate::csv::lower_char(v[k]);
    let b = crate::csv::lower_char(v[k + 1]);
    let c = crate::csv::lower_char(v[k + 2]);
    let d = crate::csv::lower_char(v[k + 3]);
    let e = crate::csv::lower_char(v[k + 4]);
    let f = v[k + 5];
    let ends = f == '>' || f == ' ' || f == '\t' || f == '\n' || f == '\r' || f == '\u{0C}';
    let r = a == '<' && b == 'h' && c == 'e' && d == 'a' && e == 'd' && ends;
    let ghost l = crate::config::lower_ascii(v@.subrange(k as int, k + 5));
    assert(l[0] == a && l[1] == b && l[2] == c && l[3] == d && l[4] == e);
    if a == '<' && b == 'h' && c == 'e' && d == 'a' && e == 'd' {
        assert(l =~= "<head"@);
    }
    r
}

fn find_head(v: &Vec<char>) -> (r: Option<usize>)
    ensures
        r matches Some(h) ==> head_at(v@, h as int) && h < v.len(),
        r is None ==> forall|x: int| !head_at(v@, x),
{
    if v.len() < 6 {
        return None;
    }
    let mut h: usize = 0;
    while h <= v.len() - 6
        invariant
            v.len() >= 6,
            h <= v.len() - 5,
            forall|k: int| 0 <= k < h ==> !#[trigger] head_tag_at(v@, k),
        decreases v.len() - h,
    {
        if head_is(v, h) {
            return Some(h);
        }
        h = h + 1;
    }
    proof {
        assert forall|x: int| !head_at(v@, x) by {
            if head_at(v@, x) {
                assert(head_tag_at(v@, x));
            }
        }
    }
    None
}

pub fn inject_entry(entry_html: &str, base: &str, block_json: &str) -> (r: String)
    ensures
        r@ == inject_spec(entry_html@, base@, block_json@),
{
    let v = chars_of(entry_html);
    let mut p = String::new();
    push_str(&mut p, INJECT_HEAD);
    push_str(&mut p, base);
    push_str(&mut p, INJECT_MID);
    push_str(&mut p, block_json);
    push_str(&mut p, INJECT_TAIL);
    let h = match find_head(&v) {
        Some(h) => h,
        None => {
            let mut r = p;
            push_str(&mut r, entry_html);
            return r;
        },
    };
    assert(forall|x: int| head_at(v@, x) ==> x == h);
    let mut c: usize = h;
    while c < v.len() && v[c] != '>'
        invariant
            h <= c <= v.len(),
            v@ == entry_html@,
            forall|k: int| h <= k < c ==> #[trigger] v@[k] != '>',
        decreases v.len() - c,
    {
        c = c + 1;
    }
    if c == v.len() {
        proof {
            assert forall|x: int| !close_at(v@, h as int, x) by {}
        }
        let mut r = p;
        push_str(&mut r, entry_html);
        return r;
    }
    assert(close_at(v@, h as int, c as int));
    assert(forall|x: int| close_at(v@, h as int, x) ==> x == c);
    proof {
        let hh = choose|x: int| head_at(v@, x);
        assert(head_at(v@, hh));
        assert(hh == h);
        assert(close_at(v@, hh, c as int));
        let cc = choose|x: int| close_at(v@, hh, x);
        assert(close_at(v@, hh, cc));
        assert(cc == c);
    }
    let mut r = crate::text::string_of_range(&v, 0, c + 1);
    push_str(&mut r, p.as_str());
    crate::text::push_range(&mut r, &v, c + 1, v.len());
    assert(v@.take(c + 1) =~= v@.subrange(0, c + 1));
    assert(v@.skip(c + 1) =~= v@.subrange(c + 1, v@.len() as int));
    r
}

// ---- confinement -------------------------------------------------------------------

/// Whole-component prefix of canonical paths (`Path::starts_with` on paths
/// with no `.`, `..`, repeated or trailing separators).
pub open spec fn within(dir: Seq<char>, path: Seq<char>) -> bool {
    path == dir || (starts_with(path, dir) && (dir.len() > 0 && dir.last() == '/' || path.len() > dir.len()
        && path[dir.len() as int] == '/'))
}

/// Static-file confinement, the same rule as the page file route: given the
/// canonical forms of the extension's directory and of the requested file
/// (none where either does not resolve), serve the file only when it is
/// inside the directory.
pub fn safe_ext_file(dir: Option<String>, path: Option<String>) -> (r: Option<String>)
    ensures
        match (dir, path) {
            (Some(d), Some(p)) => if within(d@, p@) {
                r == Some(p)
            } else {
                r is None
            },
            _ => r is None,
        },
{
    match (dir, path) {
        (Some(d), Some(p)) => {
            let dv = chars_of(d.as_str());
            let pv = chars_of(p.as_str());
            let ok = crate::text::eq_chars(&pv, &dv) || (crate::text::has_prefix(&pv, &dv) && (
            (dv.len() > 0 && dv[dv.len() - 1] == '/') || (pv.len() > dv.len() && pv[dv.len()] == '/')));
            if ok {
                Some(p)
            } else {
                None
            }
        },
        _ => None,
    }
}

// ---- what a call returns ----------------------------------------------------------------

/// The per-call output ceiling, in bytes, on each of stdout and stderr: a
/// runaway child must not push half a gigabyte into a page.
pub const OUTPUT_CAP: usize = 64 * 1024 * 1024;

/// Names what `String::from_utf8_lossy` makes of some bytes.
pub uninterp spec fn utf8_lossy(bytes: Seq<u8>) -> Seq<char>;

/// `String::from_utf8_lossy(bytes).into_owned()`: the bytes as text, each
/// invalid sequence replaced by U+FFFD.
#[verifier::external_body]
fn lossy_text(bytes: &[u8]) -> (r: String)
    ensures
        r@ == utf8_lossy(bytes@),
{
    String::from_utf8_lossy(bytes).into_owned()
}

/// A finished call: an exit code is a result (the frame reads it), output
/// past the cap on either pipe is the mechanism's refusal. The pipes are
/// read to at most one byte past the cap, so the refusal is decided on what
/// was read.
pub fn call_result(code: Option<i32>, stdout: &[u8], stderr: &[u8]) -> (r: Result<CallResult, String>)
    ensures
        (stdout@.len() > OUTPUT_CAP || stderr@.len() > OUTPUT_CAP) <==> r is Err,
        r matches Err(e) ==> e@ == "output cap (64 MB) exceeded"@,
        r matches Ok(c) ==> c.code == code && c.stdout@ == utf8_lossy(stdout@) && c.stderr@ == utf8_lossy(stderr@),
{
    if stdout.len() > OUTPUT_CAP || stderr.len() > OUTPUT_CAP {
        let mut e = String::new();
        push_str(&mut e, "output cap (64 MB) exceeded");
        return Err(e);
    }
    Ok(CallResult { code, stdout: lossy_text(stdout), stderr: lossy_text(stderr) })
}

// ---- SIDEVIEW_BLOCK -------------------------------------------------------------------------

/// Names the JSON text serde_json writes for the object
/// `{"page": page, "id": id, "attrs": {key: value, …}, "body": body}`.
pub uninterp spec fn block_object_json(
    page: Seq<char>,
    id: Seq<char>,
    attrs: Seq<(Seq<char>, Seq<char>)>,
    body: Seq<char>,
) -> Seq<char>;

/// serde_json's compact text for the block object: `attrs` collected into a
/// JSON object of strings (a later key overwrites an earlier one), then the
/// object `{page, id, attrs, body}` written out.
#[verifier::external_body]
fn block_object(page: &str, id: &str, attrs: &Vec<(String, String)>, body: &str) -> (r: String)
    ensures
        r@ == block_object_json(page@, id@, crate::format::attrs_view(attrs@), body@),
{
    let m: JsonMap<String, Value> = attrs.iter().map(|(k, v)| (k.clone(), Value::String(v.clone()))).collect();
    let mut o = JsonMap::new();
    o.insert("page".to_string(), Value::String(page.to_string()));
    o.insert("id".to_string(), Value::String(id.to_string()));
    o.insert("attrs".to_string(), Value::Object(m));
    o.insert("body".to_string(), Value::String(body.to_string()));
    Value::Object(o).to_string()
}

/// SIDEVIEW_BLOCK as a script-safe literal: serde's JSON with every `</`
/// written `<\/`, so a body holding "</script>" cannot end the injected tag.
pub open spec fn block_json_spec(page: Seq<char>, id: Seq<char>, attrs: Seq<(Seq<char>, Seq<char>)>, body: Seq<char>) -> Seq<char> {
    crate::text::replace_all(block_object_json(page, id, attrs, body), seq!['<', '/'], seq!['<', '\\', '/'])
}

pub fn block_json(page: &str, id: &str, attrs: &Vec<(String, String)>, body: &str) -> (r: String)
    ensures
        r@ == block_json_spec(page@, id@, crate::format::attrs_view(attrs@), body@),
{
    let j = block_object(page, id, attrs, body);
    proof {
        reveal_strlit("</");
        reveal_strlit("<\\/");
        assert("</"@ =~= seq!['<', '/']);
        assert("<\\/"@ =~= seq!['<', '\\', '/']);
    }
    crate::text::replace_str(j.as_str(), "</", "<\\/")
}

} // verus!
