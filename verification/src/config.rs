//! `.sideview.toml` — per-repo configuration, committed, hand- or
//! agent-authored. It supplies only what a file cannot say about itself: an
//! `.sv` page declares its own label, order and category in canon; markdown
//! and HTML have nowhere to put attributes, so for them this is the only
//! voice. Reading the files and parsing TOML belong to the caller; the
//! rules about what they say are here.

use vstd::prelude::*;

use crate::text::{chars_of, debug_quoted, debug_str, push_dec, push_str, str_eq};

verus! {

pub const FILE: &'static str = ".sideview.toml";

/// The highest extension contract this build implements.
pub const EXTENSION_API: u32 = 1;

/// One installed extension, as the config lists it.
pub struct ExtensionEntry {
    /// Project-relative directory holding plugin.toml and the entry files.
    pub path: String,
    pub enabled: Option<bool>,
}

/// An extension's own manifest — extensions/<name>/plugin.toml.
pub struct Manifest {
    /// Claims the block tag `sv-<name>`.
    pub name: String,
    /// The version of the extension contract the extension expects.
    pub api: u32,
    /// "inline" | "frame" | "sandbox" — only "frame" is built.
    pub render: String,
    /// Entry file, relative to the extension directory.
    pub entry: String,
    /// The one binary `call_cli` may exec; bare names resolve on PATH,
    /// "./…" relative to the extension directory.
    pub bin: Option<String>,
}

/// A loaded, validated extension: manifest plus its directory.
pub struct Extension {
    pub manifest: Manifest,
    /// Project-relative directory (the config entry's path).
    pub dir: String,
}

impl Extension {
    /// The block tag the extension claims.
    pub fn tag(&self) -> (r: String)
        ensures
            r@ == "sv-"@ + self.manifest.name@,
    {
        let mut r = String::new();
        push_str(&mut r, "sv-");
        push_str(&mut r, self.manifest.name.as_str());
        r
    }
}

// ---- loading extensions ------------------------------------------------------------

/// What became of reading and parsing one entry's plugin.toml.
pub enum ManifestLoad {
    /// The file could not be read; the reason.
    Missing(String),
    /// The file is not a manifest; the parser's reason.
    Malformed(String),
    Parsed(Manifest),
}

/// A name the tag grammar can hold: `[a-z0-9-]+`.
pub open spec fn name_ok(n: Seq<char>) -> bool {
    n.len() > 0 && forall|i: int| 0 <= i < n.len() ==> ({
        let c = #[trigger] n[i];
        ('a' <= c && c <= 'z') || ('0' <= c && c <= '9') || c == '-'
    })
}

/// A manifest as plain values: name, api, render mode, entry file, binary.
pub struct ManifestV {
    pub name: Seq<char>,
    pub api: u32,
    pub render: Seq<char>,
    pub entry: Seq<char>,
    pub bin: Option<Seq<char>>,
}

pub open spec fn manifest_view(m: Manifest) -> ManifestV {
    ManifestV {
        name: m.name@,
        api: m.api,
        render: m.render@,
        entry: m.entry@,
        bin: match m.bin {
            Some(b) => Some(b@),
            None => None,
        },
    }
}

/// Why a parsed manifest is refused, given the names already loaded, or
/// none: a bad name, a newer contract, a render mode that is not built, a
/// name already taken — checked in that order.
pub open spec fn manifest_problem(m: ManifestV, loaded: Seq<Seq<char>>) -> Option<Seq<char>> {
    let name = m.name;
    let api = m.api;
    let render = m.render;
    if !name_ok(name) {
        Some("name "@ + debug_str(name) + " is not [a-z0-9-]"@)
    } else if api > EXTENSION_API {
        Some("wants api "@ + crate::text::dec(api as nat) + " but this sideview knows 1"@)
    } else if render != "frame"@ {
        Some("render "@ + debug_str(render) + " is not built in this sideview (only \"frame\")"@)
    } else if loaded.contains(name) {
        Some("duplicate extension name "@ + debug_str(name))
    } else {
        None
    }
}

pub open spec fn load_view(l: ManifestLoad) -> Result<ManifestV, (bool, Seq<char>)> {
    match l {
        ManifestLoad::Missing(e) => Err((true, e@)),
        ManifestLoad::Malformed(e) => Err((false, e@)),
        ManifestLoad::Parsed(m) => Ok(manifest_view(m)),
    }
}

/// The state of the loading fold: the manifests loaded so far, their names
/// and their directories in step, and the problems found.
pub struct LoadState {
    pub manifests: Seq<ManifestV>,
    pub names: Seq<Seq<char>>,
    pub dirs: Seq<Seq<char>>,
    pub problems: Seq<(Seq<char>, Seq<char>)>,
}

/// One entry: disabled ones are skipped silently; every failure is a named
/// fact against the entry's path; a valid manifest loads.
pub open spec fn load_step(
    st: LoadState,
    path: Seq<char>,
    enabled: Option<bool>,
    l: Result<ManifestV, (bool, Seq<char>)>,
) -> LoadState {
    if enabled == Some(false) {
        st
    } else {
        match l {
            Err((true, e)) => LoadState {
                problems: st.problems.push((path, "no plugin.toml ("@ + e + ")"@)),
                ..st
            },
            Err((false, e)) => LoadState {
                problems: st.problems.push((path, "plugin.toml: "@ + e)),
                ..st
            },
            Ok(m) => match manifest_problem(m, st.names) {
                Some(p) => LoadState { problems: st.problems.push((path, p)), ..st },
                None => LoadState {
                    manifests: st.manifests.push(m),
                    names: st.names.push(m.name),
                    dirs: st.dirs.push(path),
                    problems: st.problems,
                },
            },
        }
    }
}

pub open spec fn load_fold(
    entries: Seq<(Seq<char>, Option<bool>)>,
    loads: Seq<Result<ManifestV, (bool, Seq<char>)>>,
) -> LoadState
    decreases entries.len(),
{
    if entries.len() == 0 {
        LoadState { manifests: Seq::empty(), names: Seq::empty(), dirs: Seq::empty(), problems: Seq::empty() }
    } else {
        let k = entries.len() - 1;
        load_step(
            load_fold(entries.drop_last(), loads),
            entries[k].0,
            entries[k].1,
            loads[k],
        )
    }
}

pub open spec fn entries_view(v: Seq<ExtensionEntry>) -> Seq<(Seq<char>, Option<bool>)> {
    v.map_values(|e: ExtensionEntry| (e.path@, e.enabled))
}

pub open spec fn loads_view(v: Seq<ManifestLoad>) -> Seq<Result<ManifestV, (bool, Seq<char>)>> {
    v.map_values(|l: ManifestLoad| load_view(l))
}

/// How many entries are not disabled.
pub open spec fn enabled_count(entries: Seq<(Seq<char>, Option<bool>)>) -> nat
    decreases entries.len(),
{
    if entries.len() == 0 {
        0
    } else {
        enabled_count(entries.drop_last()) + if entries.last().1 == Some(false) { 0nat } else { 1nat }
    }
}

/// What loading promises of its result: every enabled entry yields exactly
/// one loaded extension or one problem, and a disabled one nothing; every
/// loaded manifest has a `[a-z0-9-]+` name, a contract this build knows and
/// the `frame` render mode; no two loaded extensions share a name.
pub proof fn lemma_loaded_extensions_are_valid(
    entries: Seq<(Seq<char>, Option<bool>)>,
    loads: Seq<Result<ManifestV, (bool, Seq<char>)>>,
)
    requires
        loads.len() >= entries.len(),
    ensures
        ({
            let st = load_fold(entries, loads);
            &&& st.manifests.len() == st.names.len()
            &&& st.dirs.len() == st.names.len()
            &&& st.manifests.len() + st.problems.len() == enabled_count(entries)
            &&& forall|j: int| 0 <= j < st.manifests.len() ==> {
                &&& name_ok((#[trigger] st.manifests[j]).name)
                &&& st.manifests[j].api <= EXTENSION_API
                &&& st.manifests[j].render == "frame"@
                &&& st.names[j] == st.manifests[j].name
            }
            &&& forall|i: int, j: int| 0 <= i < j < st.names.len() ==> st.names[i] != st.names[j]
        }),
    decreases entries.len(),
{
    if entries.len() > 0 {
        let init = entries.drop_last();
        lemma_loaded_extensions_are_valid(init, loads);
        let prev = load_fold(init, loads);
        let k = entries.len() - 1;
        let st = load_fold(entries, loads);
        assert(st == load_step(prev, entries[k].0, entries[k].1, loads[k]));
        if entries[k].1 != Some(false) {
            if loads[k] is Ok {
                let m = loads[k]->Ok_0;
                if manifest_problem(m, prev.names) is None {
                    assert(!prev.names.contains(m.name));
                    assert forall|i: int, j: int| 0 <= i < j < st.names.len() implies st.names[i] != st.names[j] by {
                        if j == st.names.len() - 1 {
                            assert(st.names[j] == m.name);
                            assert(st.names[i] == prev.names[i]);
                            if st.names[i] == st.names[j] {
                                assert(prev.names.contains(m.name));
                            }
                        } else {
                            assert(st.names[i] == prev.names[i]);
                            assert(st.names[j] == prev.names[j]);
                        }
                    }
                    assert forall|j: int| 0 <= j < st.manifests.len() implies {
                        &&& name_ok((#[trigger] st.manifests[j]).name)
                        &&& st.manifests[j].api <= EXTENSION_API
                        &&& st.manifests[j].render == "frame"@
                        &&& st.names[j] == st.manifests[j].name
                    } by {
                        if j < prev.manifests.len() {
                            assert(st.manifests[j] == prev.manifests[j]);
                            assert(st.names[j] == prev.names[j]);
                        }
                    }
                }
            }
        }
    }
}

fn name_is_ok(n: &str) -> (r: bool)
    ensures
        r == name_ok(n@),
{
    let v = chars_of(n);
    if v.len() == 0 {
        return false;
    }
    let mut i: usize = 0;
    while i < v.len()
        invariant
            i <= v.len(),
            v@ == n@,
            forall|j: int| 0 <= j < i ==> ({
                let c = #[trigger] v@[j];
                ('a' <= c && c <= 'z') || ('0' <= c && c <= '9') || c == '-'
            }),
        decreases v.len() - i,
    {
        let c = v[i];
        if !(('a' <= c && c <= 'z') || ('0' <= c && c <= '9') || c == '-') {
            return false;
        }
        i = i + 1;
    }
    true
}

fn problem_of(m: &Manifest, loaded: &Vec<Extension>) -> (r: Option<String>)
    ensures
        match (r, manifest_problem(manifest_view(*m), loaded@.map_values(|x: Extension| x.manifest.name@))) {
            (Some(a), Some(b)) => a@ == b,
            (None, None) => true,
            _ => false,
        },
{
    let ghost names = loaded@.map_values(|x: Extension| x.manifest.name@);
    if !name_is_ok(m.name.as_str()) {
        let mut p = String::new();
        push_str(&mut p, "name ");
        push_str(&mut p, debug_quoted(m.name.as_str()).as_str());
        push_str(&mut p, " is not [a-z0-9-]");
        return Some(p);
    }
    if m.api > EXTENSION_API {
        let mut p = String::new();
        push_str(&mut p, "wants api ");
        push_dec(&mut p, m.api as u64);
        push_str(&mut p, " but this sideview knows 1");
        return Some(p);
    }
    if !str_eq(m.render.as_str(), "frame") {
        let mut p = String::new();
        push_str(&mut p, "render ");
        push_str(&mut p, debug_quoted(m.render.as_str()).as_str());
        push_str(&mut p, " is not built in this sideview (only \"frame\")");
        return Some(p);
    }
    let mut i: usize = 0;
    while i < loaded.len()
        invariant
            i <= loaded.len(),
            names == loaded@.map_values(|x: Extension| x.manifest.name@),
            forall|j: int| 0 <= j < i ==> names[j] != m.name@,
            name_ok(m.name@),
            m.api <= EXTENSION_API,
            m.render@ == "frame"@,
        decreases loaded.len() - i,
    {
        if str_eq(loaded[i].manifest.name.as_str(), m.name.as_str()) {
            assert(names[i as int] == m.name@);
            assert(names.contains(m.name@));
            let mut p = String::new();
            push_str(&mut p, "duplicate extension name ");
            push_str(&mut p, debug_quoted(m.name.as_str()).as_str());
            return Some(p);
        }
        i = i + 1;
    }
    assert(!names.contains(m.name@));
    None
}

/// Load every enabled extension from its entry and what reading its
/// manifest gave (`loads[i]` for `entries[i]`). Failures are facts to render,
/// not reasons to refuse service: each comes back as (path, message), and a
/// refused manifest is simply not loaded — its blocks fall through to the
/// honest unknown-tag block.
pub fn load_extensions(entries: &Vec<ExtensionEntry>, loads: Vec<ManifestLoad>) -> (r: (Vec<Extension>, Vec<(String, String)>))
    requires
        loads.len() == entries.len(),
    ensures
        ({
            let st = load_fold(entries_view(entries@), loads_view(loads@));
            &&& r.0@.map_values(|x: Extension| manifest_view(x.manifest)) == st.manifests
            &&& r.0@.map_values(|x: Extension| x.manifest.name@) == st.names
            &&& r.0@.map_values(|x: Extension| x.dir@) == st.dirs
            &&& r.1@.map_values(|p: (String, String)| (p.0@, p.1@)) == st.problems
        }),
        r.0.len() + r.1.len() == enabled_count(entries_view(entries@)),
        forall|j: int| 0 <= j < r.0.len() ==> {
            &&& name_ok((#[trigger] r.0@[j]).manifest.name@)
            &&& r.0@[j].manifest.api <= EXTENSION_API
            &&& r.0@[j].manifest.render@ == "frame"@
        },
        forall|i: int, j: int| 0 <= i < j < r.0.len() ==> r.0@[i].manifest.name@ != r.0@[j].manifest.name@,
{
    proof {
        lemma_loaded_extensions_are_valid(entries_view(entries@), loads_view(loads@));
    }
    let ghost ev = entries_view(entries@);
    let ghost lv = loads_view(loads@);
    let mut out: Vec<Extension> = Vec::new();
    let mut problems: Vec<(String, String)> = Vec::new();
    let mut loads = loads;
    let mut rest: Vec<ManifestLoad> = Vec::new();
    // take the loads in order: reverse them once, then pop
    while loads.len() > 0
        invariant
            rest@.len() + loads@.len() == lv.len(),
            forall|j: int| 0 <= j < rest.len() ==> load_view(#[trigger] rest@[j]) == lv[lv.len() - 1 - j],
            forall|j: int| 0 <= j < loads.len() ==> load_view(#[trigger] loads@[j]) == lv[j],
        decreases loads.len(),
    {
        let l = loads.pop().unwrap();
        rest.push(l);
    }
    let mut i: usize = 0;
    assert(ev.take(0) =~= Seq::<(Seq<char>, Option<bool>)>::empty());
    while i < entries.len()
        invariant
            i <= entries.len(),
            ev == entries_view(entries@),
            lv.len() == entries.len(),
            rest.len() == entries.len() - i,
            forall|j: int| 0 <= j < rest.len() ==> load_view(#[trigger] rest@[j]) == lv[lv.len() - 1 - j],
            ({
                let st = load_fold(ev.take(i as int), lv);
                &&& out@.map_values(|x: Extension| manifest_view(x.manifest)) == st.manifests
                &&& out@.map_values(|x: Extension| x.manifest.name@) == st.names
                &&& out@.map_values(|x: Extension| x.dir@) == st.dirs
                &&& problems@.map_values(|p: (String, String)| (p.0@, p.1@)) == st.problems
            }),
        decreases entries.len() - i,
    {
        assert(ev.take(i + 1).drop_last() =~= ev.take(i as int));
        let l = rest.pop().unwrap();
        assert(load_view(l) == lv[i as int]);
        let e = &entries[i];
        let ghost po = out@;
        let ghost pp = problems@;
        if e.enabled != Some(false) {
            match l {
                ManifestLoad::Missing(err) => {
                    let mut msg = String::new();
                    push_str(&mut msg, "no plugin.toml (");
                    push_str(&mut msg, err.as_str());
                    push_str(&mut msg, ")");
                    problems.push((e.path.clone(), msg));
                },
                ManifestLoad::Malformed(err) => {
                    let mut msg = String::new();
                    push_str(&mut msg, "plugin.toml: ");
                    push_str(&mut msg, err.as_str());
                    problems.push((e.path.clone(), msg));
                },
                ManifestLoad::Parsed(m) => {
                    match problem_of(&m, &out) {
                        Some(p) => {
                            problems.push((e.path.clone(), p));
                        },
                        None => {
                            out.push(Extension { manifest: m, dir: e.path.clone() });
                        },
                    }
                },
            }
        }
        assert(problems@.map_values(|p: (String, String)| (p.0@, p.1@)) =~= load_step(
            load_fold(ev.take(i as int), lv),
            ev[i as int].0,
            ev[i as int].1,
            lv[i as int],
        ).problems);
        assert(out@.map_values(|x: Extension| x.manifest.name@) =~= load_step(
            load_fold(ev.take(i as int), lv),
            ev[i as int].0,
            ev[i as int].1,
            lv[i as int],
        ).names);
        assert(out@.map_values(|x: Extension| manifest_view(x.manifest)) =~= load_step(
            load_fold(ev.take(i as int), lv),
            ev[i as int].0,
            ev[i as int].1,
            lv[i as int],
        ).manifests);
        assert(out@.map_values(|x: Extension| x.dir@) =~= load_step(
            load_fold(ev.take(i as int), lv),
            ev[i as int].0,
            ev[i as int].1,
            lv[i as int],
        ).dirs);
        i = i + 1;
    }
    assert(ev.take(entries.len() as int) =~= ev);
    proof {
        let st = load_fold(ev, lv);
        assert forall|j: int| 0 <= j < out.len() implies {
            &&& name_ok((#[trigger] out@[j]).manifest.name@)
            &&& out@[j].manifest.api <= EXTENSION_API
            &&& out@[j].manifest.render@ == "frame"@
        } by {
            assert(out@.map_values(|x: Extension| manifest_view(x.manifest))[j] == st.manifests[j]);
        }
        assert forall|i: int, j: int| 0 <= i < j < out.len() implies out@[i].manifest.name@ != out@[j].manifest.name@ by {
            assert(out@.map_values(|x: Extension| x.manifest.name@)[i] == st.names[i]);
            assert(out@.map_values(|x: Extension| x.manifest.name@)[j] == st.names[j]);
        }
        assert(out@.map_values(|x: Extension| x.manifest.name@).len() == out.len());
        assert(problems@.map_values(|p: (String, String)| (p.0@, p.1@)).len() == problems.len());
    }
    (out, problems)
}

// ---- formats -----------------------------------------------------------------------

/// How a bound file is rendered — decided by extension, with HTML's mode
/// coming from config because a foreign file cannot declare it.
#[derive(Debug, Clone, Copy, PartialEq, Eq, Structural)]
pub enum Format {
    /// The composed format: typed blocks.
    Sv,
    /// Imported markdown: one prose block, fully commentable.
    Markdown,
    /// Imported HTML, rendered into the page.
    HtmlInline,
    /// Imported HTML in a sandboxed iframe.
    HtmlFrame,
}

/// Names what std's `Path::extension` gives for a path: the part of the file
/// name after its last `.`, none for a name without one, a name that only
/// starts with one, or no file name at all.
pub uninterp spec fn path_extension(rel: Seq<char>) -> Option<Seq<char>>;

/// `std::path::Path::extension`, lossily converted to a string.
#[verifier::external_body]
fn extension_of(rel: &str) -> (r: Option<String>)
    ensures
        match r {
            Some(e) => path_extension(rel@) == Some(e@),
            None => path_extension(rel@) is None,
        },
{
    std::path::Path::new(rel).extension().map(|e| e.to_string_lossy().to_string())
}

pub open spec fn lower_ascii(s: Seq<char>) -> Seq<char> {
    s.map_values(|c: char| crate::csv::ascii_lower(c))
}

/// The format a file renders as, from its extension (ASCII case ignored).
pub open spec fn format_spec(rel: Seq<char>, render: Option<Seq<char>>) -> Format {
    match path_extension(rel) {
        Some(e) => {
            let x = lower_ascii(e);
            if x == "md"@ || x == "markdown"@ {
                Format::Markdown
            } else if x == "html"@ || x == "htm"@ {
                if render == Some("iframe"@) {
                    Format::HtmlFrame
                } else {
                    Format::HtmlInline
                }
            } else {
                Format::Sv
            }
        },
        None => Format::Sv,
    }
}

fn lowered(s: &str) -> (r: String)
    ensures
        r@ == lower_ascii(s@),
{
    let v = chars_of(s);
    let mut r = String::new();
    let mut i: usize = 0;
    while i < v.len()
        invariant
            i <= v.len(),
            v@ == s@,
            r@ == lower_ascii(v@.take(i as int)),
        decreases v.len() - i,
    {
        let c = v[i];
        let l = if 'A' <= c && c <= 'Z' { ((c as u8) + 32) as char } else { c };
        crate::text::push_char(&mut r, l);
        i = i + 1;
        assert(r@ =~= lower_ascii(v@.take(i as int)));
    }
    assert(v@.take(v.len() as int) =~= v@);
    r
}

pub fn format_of(rel: &str, render: Option<&str>) -> (f: Format)
    ensures
        f == format_spec(rel@, crate::session::opt_str(render)),
{
    match extension_of(rel) {
        Some(e) => {
            let x = lowered(e.as_str());
            if str_eq(x.as_str(), "md") || str_eq(x.as_str(), "markdown") {
                Format::Markdown
            } else if str_eq(x.as_str(), "html") || str_eq(x.as_str(), "htm") {
                let frame = match render {
                    Some(r) => str_eq(r, "iframe"),
                    None => false,
                };
                if frame {
                    Format::HtmlFrame
                } else {
                    Format::HtmlInline
                }
            } else {
                Format::Sv
            }
        },
        None => Format::Sv,
    }
}

/// Imported formats are foreign files sideview does not own — `page rm`
/// deletes files, and closing a page must never be what removes DESIGN.md.
pub fn is_imported(rel: &str) -> (r: bool)
    ensures
        r == (format_spec(rel@, None) != Format::Sv),
{
    match format_of(rel, None) {
        Format::Sv => false,
        _ => true,
    }
}

// ---- page ids ---------------------------------------------------------------------------

/// Names what std's `Path::file_stem` gives for a path: the file name
/// without its last extension; none for a path with no file name.
pub uninterp spec fn path_stem(rel: Seq<char>) -> Option<Seq<char>>;

/// `std::path::Path::file_stem`, lossily converted to a string.
#[verifier::external_body]
fn file_stem_of(rel: &str) -> (r: Option<String>)
    ensures
        match r {
            Some(e) => path_stem(rel@) == Some(e@),
            None => path_stem(rel@) is None,
        },
{
    std::path::Path::new(rel).file_stem().map(|s| s.to_string_lossy().to_string())
}

/// A configured page's id: the one it declares, else its file's stem, else
/// its whole path.
pub open spec fn page_id_spec(id: Option<Seq<char>>, path: Seq<char>) -> Seq<char> {
    match id {
        Some(i) => i,
        None => match path_stem(path) {
            Some(s) => s,
            None => path,
        },
    }
}

pub fn page_id_of(id: Option<&str>, path: &str) -> (r: String)
    ensures
        r@ == page_id_spec(crate::session::opt_str(id), path@),
{
    let mut r = String::new();
    match id {
        Some(i) => push_str(&mut r, i),
        None => match file_stem_of(path) {
            Some(s) => push_str(&mut r, s.as_str()),
            None => push_str(&mut r, path),
        },
    }
    r
}

/// The page id `open <file>` binds a committed file under: its stem
/// (V2.sv is page V2), or a refusal when the path names no file.
pub fn open_page_id(abs: &str) -> (r: Result<String, String>)
    ensures
        match path_stem(abs@) {
            Some(s) => r matches Ok(x) && x@ == s,
            None => r matches Err(e) && e@ == "file has no stem to name the page after"@,
        },
{
    match file_stem_of(abs) {
        Some(s) => Ok(s),
        None => {
            let mut e = String::new();
            push_str(&mut e, "file has no stem to name the page after");
            Err(e)
        },
    }
}


/// A file's extension decides its format, ASCII case ignored: `md` and
/// `markdown` are imported markdown; `html` and `htm` are HTML, in a frame
/// only when the config asks for `iframe`; every other extension, and none,
/// is a composed `.sv` page.
pub proof fn lemma_format_by_extension(rel: Seq<char>, render: Option<Seq<char>>)
    ensures
        path_extension(rel) matches Some(e) && (lower_ascii(e) == "md"@ || lower_ascii(e) == "markdown"@)
            ==> format_spec(rel, render) == Format::Markdown,
        path_extension(rel) matches Some(e) && (lower_ascii(e) == "html"@ || lower_ascii(e) == "htm"@)
            ==> format_spec(rel, render) == (if render == Some("iframe"@) { Format::HtmlFrame } else { Format::HtmlInline }),
        path_extension(rel) matches Some(e) && !(lower_ascii(e) == "md"@ || lower_ascii(e) == "markdown"@
            || lower_ascii(e) == "html"@ || lower_ascii(e) == "htm"@) ==> format_spec(rel, render) == Format::Sv,
        path_extension(rel) is None ==> format_spec(rel, render) == Format::Sv,
{
    reveal_strlit("md");
    reveal_strlit("markdown");
    reveal_strlit("html");
    reveal_strlit("htm");
    assert("html"@ != "md"@ && "html"@ != "markdown"@ && "htm"@ != "md"@ && "htm"@ != "markdown"@) by {
        assert("html"@[0] != "md"@[0]);
        assert("html"@[0] != "markdown"@[0]);
        assert("htm"@[0] != "md"@[0]);
        assert("htm"@[0] != "markdown"@[0]);
    }
}

} // verus!
