//! External add-on packages: what a package's `plugin.toml` declares, and
//! how the host gates packages on the API version.
//!
//! Reading the plugins folder is the caller's business; this module says
//! where that folder is, turns the text of a `plugin.toml` into an
//! [`ExternalPlugin`], orders what was found, and picks what starts.

use vstd::prelude::*;
use std::path::PathBuf;
use crate::manifest::{strings_view, API_VERSION};
use crate::plugin::toml::{
    find_from, find_in, lemma_find_first, lemma_find_from, lemma_find_offset, lemma_unquoted_strips,
    parse_i32_range, parse_i32_spec,
    parse_string_array_range, parse_u32_range, parse_u32_spec, string_array, unquote_range,
    unquoted,
};
use crate::text_util::{
    chars_lt, is_ws, lemma_chars_lt_transitive, lemma_chars_lt_trichotomy, lemma_trim_unchanged,
    range_eq, str_lt, trim, trim_end, trim_start, trim_bounds,
};

verus! {

/// A file-system path (carried through unchanged).
#[verifier::external_type_specification]
#[verifier::external_body]
pub struct ExPathBuf(PathBuf);

/// The bytes a path holds (its OS string, as `as_os_str().as_encoded_bytes()`
/// gives them).
pub uninterp spec fn path_contents(p: PathBuf) -> Seq<u8>;

/// `PathBuf::clone`: a path equal to `p` (it copies the underlying OS
/// string).
pub assume_specification[<PathBuf as Clone>::clone](p: &PathBuf) -> (r: PathBuf)
    ensures
        r == *p,
;

/// `PathBuf::new`: an empty path, holding no bytes.
#[verifier::external_body]
fn empty_path() -> (r: PathBuf)
    ensures
        path_contents(r) == Seq::<u8>::empty(),
{
    PathBuf::new()
}

/// One entry in the curated plugin registry (`plugins/registry.json`).
#[derive(Debug, Clone)]
pub struct RegistryEntry {
    pub repo: String,
    pub name: String,
    pub description: String,
}

/// An add-on package found on disk (not necessarily loaded or compatible).
#[derive(Debug, Clone)]
pub struct ExternalPlugin {
    pub id: String,
    pub name: String,
    pub version: String,
    pub description: String,
    pub api_version: u32,
    pub ribbon_order: i32,
    pub command_prefixes: Vec<String>,
    /// The package directory under the plugins folder.
    pub dir: PathBuf,
    /// Whether a native library for this platform sits beside `plugin.toml`.
    pub lib_present: bool,
}

impl ExternalPlugin {
    /// True when the package's API version matches the host ABI major.
    pub fn api_compatible(&self) -> (b: bool)
        ensures
            b == (self.api_version == API_VERSION),
    {
        self.api_version == API_VERSION
    }

    /// True when the package can be loaded today: compatible API *and* a native
    /// library present for this platform.
    pub fn loadable(&self) -> (b: bool)
        ensures
            b == (self.api_version == API_VERSION && self.lib_present),
    {
        self.api_compatible() && self.lib_present
    }
}

// ── plugin.toml ──────────────────────────────────────────────────────────

/// What the documented keys of a `plugin.toml` have set so far.
pub struct PluginFields {
    pub id: Option<Seq<char>>,
    pub name: Seq<char>,
    pub version: Seq<char>,
    pub description: Seq<char>,
    pub api_version: u32,
    pub ribbon_order: i32,
    pub command_prefixes: Seq<Seq<char>>,
}

/// Nothing read yet.
pub open spec fn no_fields() -> PluginFields {
    PluginFields {
        id: None,
        name: Seq::empty(),
        version: Seq::empty(),
        description: Seq::empty(),
        api_version: 0,
        ribbon_order: 0,
        command_prefixes: Seq::empty(),
    }
}

/// The trimmed key and value of a `key = value` line; `None` for blank lines,
/// comments, section headers and lines without `=`.
pub open spec fn key_value(line: Seq<char>) -> Option<(Seq<char>, Seq<char>)> {
    let l = trim(line);
    if l.len() == 0 || l[0] == '#' || l[0] == '[' {
        None
    } else {
        let e = find_from(l, '=', 0);
        if e >= l.len() {
            None
        } else {
            Some((trim(l.subrange(0, e)), trim(l.subrange(e + 1, l.len() as int))))
        }
    }
}

/// One line applied to what was read before it; later lines win.
pub open spec fn apply_line(st: PluginFields, line: Seq<char>) -> PluginFields {
    match key_value(line) {
        None => st,
        Some((k, v)) => {
            if k == seq!['i', 'd'] {
                PluginFields { id: Some(unquoted(v)), ..st }
            } else if k == seq!['n', 'a', 'm', 'e'] {
                PluginFields { name: unquoted(v), ..st }
            } else if k == seq!['v', 'e', 'r', 's', 'i', 'o', 'n'] {
                PluginFields { version: unquoted(v), ..st }
            } else if k == seq!['d', 'e', 's', 'c', 'r', 'i', 'p', 't', 'i', 'o', 'n'] {
                PluginFields { description: unquoted(v), ..st }
            } else if k == seq!['a', 'p', 'i', '_', 'v', 'e', 'r', 's', 'i', 'o', 'n'] {
                PluginFields {
                    api_version: match parse_u32_spec(v) {
                        Some(x) => x,
                        None => 0,
                    },
                    ..st
                }
            } else if k == seq!['r', 'i', 'b', 'b', 'o', 'n', '_', 'o', 'r', 'd', 'e', 'r'] {
                PluginFields {
                    ribbon_order: match parse_i32_spec(v) {
                        Some(x) => x,
                        None => 0,
                    },
                    ..st
                }
            } else if k == seq![
                'c', 'o', 'm', 'm', 'a', 'n', 'd', '_', 'p', 'r', 'e', 'f', 'i', 'x', 'e', 's'
            ] {
                PluginFields { command_prefixes: string_array(v), ..st }
            } else {
                st
            }
        },
    }
}

/// The lines of `t` from index `k` on, applied in order to `st`. A line ends
/// at `\n`; a `\r` before it is white space and goes with the trimming.
pub open spec fn fields_from(st: PluginFields, t: Seq<char>, k: int) -> PluginFields
    decreases t.len() - k,
{
    if k < 0 || k > t.len() {
        st
    } else {
        proof {
            lemma_find_from(t, '\n', k);
        }
        let e = find_from(t, '\n', k);
        let next = apply_line(st, t.subrange(k, e));
        if e < t.len() {
            fields_from(next, t, e + 1)
        } else {
            next
        }
    }
}

/// Every documented key that the text of a `plugin.toml` sets.
pub open spec fn plugin_fields(text: Seq<char>) -> PluginFields {
    fields_from(no_fields(), text, 0)
}

/// The line `key = "x"`, the value between the quote characters `q`.
pub open spec fn quoted_assignment(key: Seq<char>, q: char, x: Seq<char>) -> Seq<char> {
    key + seq![' ', '=', ' ', q] + x + seq![q]
}

/// A key that a line can start with: not empty, no white space at its ends,
/// not a comment or a section header, and no `=` in it.
pub open spec fn plain_key(key: Seq<char>) -> bool {
    &&& key.len() > 0
    &&& !is_ws(key[0])
    &&& !is_ws(key.last())
    &&& key[0] != '#'
    &&& key[0] != '['
    &&& forall|i: int| 0 <= i < key.len() ==> key[i] != '='
}

proof fn lemma_quoted_assignment_splits(key: Seq<char>, q: char, x: Seq<char>)
    requires
        plain_key(key),
        q == '"' || q == '\'',
    ensures
        key_value(quoted_assignment(key, q, x)) == Some((key, seq![q] + x + seq![q])),
{
    let line = quoted_assignment(key, q, x);
    let n = key.len() as int;
    assert(!is_ws(q));
    assert(line[0] == key[0]);
    lemma_trim_unchanged(line);
    assert forall|i: int| 0 <= i < n + 1 implies line[i] != '=' by {
        if i < n {
            assert(line[i] == key[i]);
        }
    }
    lemma_find_first(line, '=', 0, n + 1);
    let left = line.subrange(0, n + 1);
    assert(left.drop_last() =~= key);
    assert(left[0] == key[0]);
    assert(trim_start(left) == left);
    assert(trim_end(key) == key);
    assert(trim(left) == key);
    let right = line.subrange(n + 2, line.len() as int);
    let v = seq![q] + x + seq![q];
    assert(right.drop_first() =~= v);
    assert(trim_start(v) == v);
    assert(trim_start(right) == v);
    lemma_trim_unchanged(v);
    assert(trim(right) == v);
}

/// The four text keys follow one rule: a line `id = "X"`, `name = "X"`,
/// `version = "X"` or `description = "X"` (single quotes alike) sets that
/// field to `X` without the quotes and leaves every other field as it was.
pub proof fn lemma_quoted_text_keys(st: PluginFields, q: char, x: Seq<char>)
    requires
        q == '"' || q == '\'',
    ensures
        apply_line(st, quoted_assignment(seq!['i', 'd'], q, x)) == (PluginFields {
            id: Some(x),
            ..st
        }),
        apply_line(st, quoted_assignment(seq!['n', 'a', 'm', 'e'], q, x)) == (PluginFields {
            name: x,
            ..st
        }),
        apply_line(st, quoted_assignment(seq!['v', 'e', 'r', 's', 'i', 'o', 'n'], q, x)) == (
        PluginFields { version: x, ..st }),
        apply_line(
            st,
            quoted_assignment(seq!['d', 'e', 's', 'c', 'r', 'i', 'p', 't', 'i', 'o', 'n'], q, x),
        ) == (PluginFields { description: x, ..st }),
{
    lemma_unquoted_strips(x, q);
    let id = seq!['i', 'd'];
    let name = seq!['n', 'a', 'm', 'e'];
    let version = seq!['v', 'e', 'r', 's', 'i', 'o', 'n'];
    let description = seq!['d', 'e', 's', 'c', 'r', 'i', 'p', 't', 'i', 'o', 'n'];
    assert(plain_key(id));
    assert(plain_key(name));
    assert(plain_key(version));
    assert(plain_key(description));
    lemma_quoted_assignment_splits(id, q, x);
    lemma_quoted_assignment_splits(name, q, x);
    lemma_quoted_assignment_splits(version, q, x);
    lemma_quoted_assignment_splits(description, q, x);
    assert(name != id);
    assert(version != id && version != name);
    assert(description != id && description != name && description != version);
}

/// Whatever value a line gives one of the text keys, the same value given to
/// another of them is read in the same way: `description` is unquoted just as
/// `id`, `name` and `version` are.
pub proof fn lemma_text_keys_read_alike(st: PluginFields, l1: Seq<char>, l2: Seq<char>, v: Seq<char>)
    requires
        key_value(l1) == Some((seq!['n', 'a', 'm', 'e'], v)),
        key_value(l2) == Some((seq!['d', 'e', 's', 'c', 'r', 'i', 'p', 't', 'i', 'o', 'n'], v)),
    ensures
        apply_line(st, l2).description == apply_line(st, l1).name,
        apply_line(st, l1).name == unquoted(v),
{
    assert(seq!['n', 'a', 'm', 'e'] != seq!['i', 'd']);
    let description = seq!['d', 'e', 's', 'c', 'r', 'i', 'p', 't', 'i', 'o', 'n'];
    assert(description != seq!['i', 'd']);
    assert(description != seq!['n', 'a', 'm', 'e']);
    assert(description != seq!['v', 'e', 'r', 's', 'i', 'o', 'n']);
}

/// The fields, as they are held while the text is read.
struct FieldsAcc {
    id: Option<String>,
    name: String,
    version: String,
    description: String,
    api_version: u32,
    ribbon_order: i32,
    command_prefixes: Vec<String>,
}

impl FieldsAcc {
    spec fn view(&self) -> PluginFields {
        PluginFields {
            id: match self.id {
                Some(s) => Some(s@),
                None => None,
            },
            name: self.name@,
            version: self.version@,
            description: self.description@,
            api_version: self.api_version,
            ribbon_order: self.ribbon_order,
            command_prefixes: strings_view(self.command_prefixes@),
        }
    }
}

/// Apply the line `v[lo..hi]` to `acc`.
fn read_line(acc: &mut FieldsAcc, v: &Vec<char>, lo: usize, hi: usize)
    requires
        lo <= hi <= v@.len(),
    ensures
        final(acc).view() == apply_line(old(acc).view(), v@.subrange(lo as int, hi as int)),
{
    let ghost line = v@.subrange(lo as int, hi as int);
    let (a, b) = trim_bounds(v, lo, hi);
    let ghost l = v@.subrange(a as int, b as int);
    if a == b || v[a] == '#' || v[a] == '[' {
        return;
    }
    let e = find_in(v, '=', a, b);
    if e == b {
        return;
    }
    proof {
        assert(l.subrange(0, e - a) =~= v@.subrange(a as int, e as int));
        assert(l.subrange(e - a + 1, l.len() as int) =~= v@.subrange(e + 1, b as int));
    }
    let (ka, kb) = trim_bounds(v, a, e);
    let (va, vb) = trim_bounds(v, e + 1, b);
    let ghost val = v@.subrange(va as int, vb as int);
    assert(key_value(line) == Some((v@.subrange(ka as int, kb as int), val)));
    if range_eq(v, ka, kb, &['i', 'd']) {
        acc.id = Some(unquote_range(v, va, vb));
    } else if range_eq(v, ka, kb, &['n', 'a', 'm', 'e']) {
        acc.name = unquote_range(v, va, vb);
    } else if range_eq(v, ka, kb, &['v', 'e', 'r', 's', 'i', 'o', 'n']) {
        acc.version = unquote_range(v, va, vb);
    } else if range_eq(v, ka, kb, &['d', 'e', 's', 'c', 'r', 'i', 'p', 't', 'i', 'o', 'n']) {
        acc.description = unquote_range(v, va, vb);
    } else if range_eq(v, ka, kb, &['a', 'p', 'i', '_', 'v', 'e', 'r', 's', 'i', 'o', 'n']) {
        acc.api_version = match parse_u32_range(v, va, vb) {
            Some(x) => x,
            None => 0,
        };
    } else if range_eq(v, ka, kb, &['r', 'i', 'b', 'b', 'o', 'n', '_', 'o', 'r', 'd', 'e', 'r']) {
        acc.ribbon_order = match parse_i32_range(v, va, vb) {
            Some(x) => x,
            None => 0,
        };
    } else if range_eq(
        v,
        ka,
        kb,
        &['c', 'o', 'm', 'm', 'a', 'n', 'd', '_', 'p', 'r', 'e', 'f', 'i', 'x', 'e', 's'],
    ) {
        acc.command_prefixes = parse_string_array_range(v, va, vb);
    }
}

/// Minimal `plugin.toml` reader for the documented `[plugin]` / `[opencad]`
/// keys (string, integer and string-array values). Returns `None` when the
/// required `id` is missing. `dir` and `lib_present` are the caller's to fill
/// in; they come back as an empty path and `false`.
pub fn parse_plugin_toml(text: &str) -> (r: Option<ExternalPlugin>)
    ensures
        r is Some <==> plugin_fields(text@).id is Some,
        r matches Some(p) ==> {
            let f = plugin_fields(text@);
            &&& f.id == Some(p.id@)
            &&& p.name@ == f.name
            &&& p.version@ == f.version
            &&& p.description@ == f.description
            &&& p.api_version == f.api_version
            &&& p.ribbon_order == f.ribbon_order
            &&& strings_view(p.command_prefixes@) == f.command_prefixes
            &&& path_contents(p.dir) == Seq::<u8>::empty()
            &&& !p.lib_present
        },
{
    let v = crate::text_util::chars_of(text);
    let mut acc = FieldsAcc {
        id: None,
        name: String::new(),
        version: String::new(),
        description: String::new(),
        api_version: 0,
        ribbon_order: 0,
        command_prefixes: Vec::new(),
    };
    proof {
        assert(acc.name@ =~= Seq::<char>::empty());
        assert(acc.version@ =~= Seq::<char>::empty());
        assert(acc.description@ =~= Seq::<char>::empty());
        assert(strings_view(acc.command_prefixes@) =~= Seq::<Seq<char>>::empty());
        assert(acc.view() == no_fields());
    }
    let mut k: usize = 0;
    loop
        invariant_except_break
            fields_from(acc.view(), v@, k as int) == plugin_fields(text@),
        invariant
            k <= v@.len(),
            v@ == text@,
        ensures
            acc.view() == plugin_fields(text@),
        decreases v@.len() - k,
    {
        let e = find_in(&v, '\n', k, v.len());
        proof {
            lemma_find_from(v@, '\n', k as int);
            lemma_find_offset(v@, '\n', k as int);
            assert(v@.subrange(k as int, v@.len() as int) == v@.subrange(k as int, v.len() as int));
        }
        read_line(&mut acc, &v, k, e);
        if e < v.len() {
            k = e + 1;
        } else {
            break;
        }
    }
    match acc.id {
        Some(id) => Some(
            ExternalPlugin {
                id,
                name: acc.name,
                version: acc.version,
                description: acc.description,
                api_version: acc.api_version,
                ribbon_order: acc.ribbon_order,
                command_prefixes: acc.command_prefixes,
                dir: empty_path(),
                lib_present: false,
            },
        ),
        None => None,
    }
}

// ── Where packages live ──────────────────────────────────────────────────

/// The platform the host runs on, as far as plugin packaging cares.
#[derive(Clone, Copy, Debug, PartialEq, Eq, Structural)]
pub enum TargetOs {
    Windows,
    MacOs,
    /// Linux and the other Unix-likes.
    Other,
}

/// The native dynamic-library extension of a platform (no dot).
pub open spec fn lib_extension_spec(os: TargetOs) -> Seq<char> {
    match os {
        TargetOs::Windows => "dll"@,
        TargetOs::MacOs => "dylib"@,
        TargetOs::Other => "so"@,
    }
}

/// Native dynamic-library extension for the platform (no dot).
pub fn lib_extension(os: TargetOs) -> (r: &'static str)
    ensures
        r@ == lib_extension_spec(os),
{
    match os {
        TargetOs::Windows => "dll",
        TargetOs::MacOs => "dylib",
        TargetOs::Other => "so",
    }
}

/// The environment variables the plugins folder is found from, as read.
pub struct PluginsEnv {
    /// `OCS_PLUGINS_DIR`: an explicit plugins folder (tests use it).
    pub override_dir: Option<String>,
    /// `APPDATA` (Windows).
    pub appdata: Option<String>,
    /// `HOME`.
    pub home: Option<String>,
    /// `XDG_CONFIG_HOME`.
    pub xdg_config_home: Option<String>,
}

/// The path components of the plugins folder: `OCS_PLUGINS_DIR` when set,
/// else `<config>/OpenCADStudio/plugins`, where `<config>` is `APPDATA` on
/// Windows, `$HOME/Library/Application Support` on macOS, and
/// `XDG_CONFIG_HOME` or else `$HOME/.config` elsewhere. `None` when the
/// variable the platform needs is unset.
pub open spec fn plugins_dir_spec(os: TargetOs, env: PluginsEnv) -> Option<Seq<Seq<char>>> {
    let tail = seq!["OpenCADStudio"@, "plugins"@];
    match env.override_dir {
        Some(d) => Some(seq![d@]),
        None => match os {
            TargetOs::Windows => match env.appdata {
                Some(a) => Some(seq![a@] + tail),
                None => None,
            },
            TargetOs::MacOs => match env.home {
                Some(h) => Some(seq![h@, "Library"@, "Application Support"@] + tail),
                None => None,
            },
            TargetOs::Other => match env.xdg_config_home {
                Some(x) => Some(seq![x@] + tail),
                None => match env.home {
                    Some(h) => Some(seq![h@, ".config"@] + tail),
                    None => None,
                },
            },
        },
    }
}

/// The path components of the plugins folder, to be joined in order.
pub fn plugins_dir(os: TargetOs, env: &PluginsEnv) -> (r: Option<Vec<String>>)
    ensures
        match (r, plugins_dir_spec(os, *env)) {
            (Some(v), Some(w)) => strings_view(v@) == w,
            (None, None) => true,
            _ => false,
        },
{
    let mut parts: Vec<String> = Vec::new();
    match &env.override_dir {
        Some(d) => {
            parts.push(d.clone());
            proof {
                assert(strings_view(parts@) =~= seq![d@]);
            }
            return Some(parts);
        },
        None => {},
    }
    match os {
        TargetOs::Windows => match &env.appdata {
            Some(a) => {
                parts.push(a.clone());
            },
            None => {
                return None;
            },
        },
        TargetOs::MacOs => match &env.home {
            Some(h) => {
                parts.push(h.clone());
                parts.push("Library".to_owned());
                parts.push("Application Support".to_owned());
            },
            None => {
                return None;
            },
        },
        TargetOs::Other => match &env.xdg_config_home {
            Some(x) => {
                parts.push(x.clone());
            },
            None => match &env.home {
                Some(h) => {
                    parts.push(h.clone());
                    parts.push(".config".to_owned());
                },
                None => {
                    return None;
                },
            },
        },
    }
    let ghost head = strings_view(parts@);
    parts.push("OpenCADStudio".to_owned());
    parts.push("plugins".to_owned());
    proof {
        assert(strings_view(parts@) =~= head + seq!["OpenCADStudio"@, "plugins"@]);
    }
    Some(parts)
}

/// The packages to start at startup, in discovery order: those whose API
/// version matches the host and that ship a native library for this
/// platform. Returns indices into `found`.
pub fn startup_candidates(found: &Vec<ExternalPlugin>) -> (r: Vec<usize>)
    ensures
        r@ == Seq::new(found@.len(), |i: int| i).filter(
            |i: int| found@[i].api_version == API_VERSION && found@[i].lib_present,
        ).map_values(|i: int| i as usize),
{
    let ghost pick = |i: int| found@[i].api_version == API_VERSION && found@[i].lib_present;
    let mut out: Vec<usize> = Vec::new();
    let mut i: usize = 0;
    proof {
        assert(Seq::new(0, |j: int| j).filter(pick) =~= Seq::<int>::empty());
        assert(out@ =~= Seq::<int>::empty().map_values(|j: int| j as usize));
    }
    while i < found.len()
        invariant
            i <= found@.len(),
            pick == (|i: int| found@[i].api_version == API_VERSION && found@[i].lib_present),
            out@ == Seq::new(i as nat, |j: int| j).filter(pick).map_values(|j: int| j as usize),
        decreases found@.len() - i,
    {
        let ghost before = Seq::new(i as nat, |j: int| j);
        let ghost after = Seq::new((i + 1) as nat, |j: int| j);
        proof {
            assert(after =~= before.push(i as int));
            before.lemma_filter_push(i as int, pick);
        }
        if found[i].loadable() {
            let ghost prev = out@;
            out.push(i);
            proof {
                before.filter(pick).lemma_push_map_commute(|j: int| j as usize, i as int);
                assert(out@ =~= prev.push(i));
            }
        }
        i = i + 1;
    }
    out
}

// ── Discovery order ──────────────────────────────────────────────────────

/// `a` is listed before `b`: lower `ribbon_order` first, then by id.
pub open spec fn listed_before(a: ExternalPlugin, b: ExternalPlugin) -> bool {
    a.ribbon_order < b.ribbon_order || (a.ribbon_order == b.ribbon_order && chars_lt(
        a.id@,
        b.id@,
    ))
}

/// `p` is a permutation of `0..n`.
pub open spec fn is_permutation(p: Seq<int>, n: int) -> bool {
    &&& p.len() == n
    &&& forall|i: int| 0 <= i < n ==> 0 <= #[trigger] p[i] < n
    &&& forall|i: int, j: int| 0 <= i < j < n ==> p[i] != p[j]
}

/// `r` is `s` sorted into listing order by a stable sort: `r[i]` is
/// `s[p[i]]` for a permutation `p`, no package is listed before one ahead of
/// it, and packages with equal order and id keep the order they came in.
pub open spec fn stably_sorted(r: Seq<ExternalPlugin>, s: Seq<ExternalPlugin>, p: Seq<int>) -> bool {
    &&& is_permutation(p, s.len() as int)
    &&& r.len() == s.len()
    &&& forall|i: int| 0 <= i < r.len() ==> #[trigger] r[i] == s[p[i]]
    &&& forall|i: int, j: int|
        0 <= i < j < r.len() ==> !listed_before(#[trigger] r[j], #[trigger] r[i])
    &&& forall|i: int, j: int|
        0 <= i < j < r.len() && !listed_before(r[i], r[j]) ==> #[trigger] p[i] < #[trigger] p[j]
}

/// Listing order is a strict weak order: asymmetric, and "after" carries
/// over through anything not before.
proof fn lemma_listed_before(a: ExternalPlugin, b: ExternalPlugin, c: ExternalPlugin)
    ensures
        listed_before(a, b) ==> !listed_before(b, a),
        listed_before(a, b) && !listed_before(c, b) ==> listed_before(a, c),
{
    lemma_chars_lt_trichotomy(a.id@, b.id@);
    lemma_chars_lt_trichotomy(b.id@, c.id@);
    lemma_chars_lt_trichotomy(a.id@, c.id@);
    if a.ribbon_order == b.ribbon_order && b.ribbon_order == c.ribbon_order && chars_lt(a.id@, b.id@)
        && !chars_lt(c.id@, b.id@) && b.id@ != c.id@ {
        lemma_chars_lt_transitive(a.id@, b.id@, c.id@);
    }
}

/// `a` is listed before `b`.
pub fn is_listed_before(a: &ExternalPlugin, b: &ExternalPlugin) -> (r: bool)
    ensures
        r == listed_before(*a, *b),
{
    a.ribbon_order < b.ribbon_order || (a.ribbon_order == b.ribbon_order && str_lt(
        a.id.as_str(),
        b.id.as_str(),
    ))
}

/// Discovered packages in listing order: sorted by `ribbon_order`, then id,
/// by a stable sort.
pub fn sort_discovered(found: Vec<ExternalPlugin>) -> (r: Vec<ExternalPlugin>)
    ensures
        exists|p: Seq<int>| stably_sorted(r@, found@, p),
{
    let ghost s = found@;
    let n = found.len();
    let mut rest = found;
    let mut out: Vec<ExternalPlugin> = Vec::new();
    let ghost mut p: Seq<int> = Seq::empty();
    let mut idx: usize = 0;
    while idx < n
        invariant
            n == s.len(),
            idx <= n,
            rest@ == s.subrange(idx as int, n as int),
            out@.len() == idx,
            p.len() == idx,
            forall|i: int| 0 <= i < idx ==> 0 <= #[trigger] p[i] < idx,
            forall|i: int, j: int| 0 <= i < j < idx ==> p[i] != p[j],
            forall|i: int| 0 <= i < idx ==> #[trigger] out@[i] == s[p[i]],
            forall|i: int, j: int|
                0 <= i < j < idx ==> !listed_before(#[trigger] out@[j], #[trigger] out@[i]),
            forall|i: int, j: int|
                0 <= i < j < idx && !listed_before(out@[i], out@[j]) ==> #[trigger] p[i]
                    < #[trigger] p[j],
        decreases n - idx,
    {
        let x = rest.remove(0);
        assert(x == s[idx as int]);
        let mut pos: usize = 0;
        while pos < out.len() && !is_listed_before(&x, &out[pos])
            invariant
                pos <= out@.len(),
                forall|j: int| 0 <= j < pos ==> !listed_before(x, #[trigger] out@[j]),
            decreases out@.len() - pos,
        {
            pos = pos + 1;
        }
        let ghost old_out = out@;
        let ghost old_p = p;
        proof {
            assert forall|j: int| pos <= j < old_out.len() implies listed_before(
                x,
                #[trigger] old_out[j],
            ) by {
                if j > pos {
                    lemma_listed_before(x, old_out[pos as int], old_out[j]);
                }
            }
        }
        out.insert(pos, x);
        proof {
            p = old_p.insert(pos as int, idx as int);
            assert forall|i: int, j: int| 0 <= i < j < idx + 1 implies !listed_before(
                #[trigger] out@[j],
                #[trigger] out@[i],
            ) by {
                if i == pos {
                    lemma_listed_before(x, out@[j], x);
                } else if j == pos {
                } else {
                }
            }
            assert forall|i: int, j: int|
                0 <= i < j < idx + 1 && !listed_before(out@[i], out@[j]) implies #[trigger] p[i]
                    < #[trigger] p[j] by {
                if i == pos {
                    lemma_listed_before(x, out@[j], x);
                } else if j == pos {
                } else {
                }
            }
        }
        idx = idx + 1;
    }
    proof {
        assert(stably_sorted(out@, s, p));
    }
    out
}

} // verus!
