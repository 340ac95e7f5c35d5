//! Capabilities granted to a plugin, checked when it calls the host, and
//! the per-plugin host context.

use vstd::prelude::*;
use crate::limits::{ExecutionLimits, TimeSpan};
use crate::text::{
    chars_of, is_prefix, push_str_chars, same_text, starts_with_chars, string_from,
    string_of, has_substring, contains_chars,
};

verus! {

/// A file-system path pattern.
#[derive(Debug, Clone)]
pub struct PathPattern {
    /// The directory the pattern is rooted at.
    pub base: String,
    /// Whether everything under `base` matches, or only its direct entries.
    pub recursive: bool,
    /// Allowed file extensions; empty for any.
    pub extensions: Vec<String>,
}

/// A network URL pattern.
#[derive(Debug, Clone)]
pub struct UrlPattern {
    /// Required scheme.
    pub scheme: Option<String>,
    /// Host that must occur in the URL.
    pub host: String,
    /// Required port.
    pub port: Option<u16>,
    /// Required path prefix.
    pub path_prefix: Option<String>,
}

/// A permission that a plugin may hold.
#[derive(Debug, Clone)]
pub enum Capability {
    /// Read files matching the pattern.
    FileSystemRead(PathPattern),
    /// Write files matching the pattern.
    FileSystemWrite(PathPattern),
    /// Fetch URLs matching the pattern.
    NetworkFetch(UrlPattern),
    /// Read terminal blocks.
    BlockRead,
    /// Write terminal blocks.
    BlockWrite,
    /// Add actions to the palette.
    PaletteAddAction,
    /// Read configuration.
    ConfigRead,
    /// Write configuration.
    ConfigWrite,
    /// Use the AI features.
    AiAccess,
}

/// The characters of each string of `v`.
pub open spec fn strings_view(v: Seq<String>) -> Seq<Seq<char>> {
    v.map_values(|s: String| s@)
}

/// The characters of an optional string.
pub open spec fn opt_chars(s: Option<String>) -> Option<Seq<char>> {
    match s {
        Some(t) => Some(t@),
        None => None,
    }
}

/// Whether two path patterns hold the same values.
pub open spec fn path_eq(a: PathPattern, b: PathPattern) -> bool {
    a.base@ == b.base@ && a.recursive == b.recursive && strings_view(a.extensions@) == strings_view(b.extensions@)
}

/// Whether two URL patterns hold the same values.
pub open spec fn url_eq(a: UrlPattern, b: UrlPattern) -> bool {
    opt_chars(a.scheme) == opt_chars(b.scheme) && a.host@ == b.host@ && a.port == b.port
        && opt_chars(a.path_prefix) == opt_chars(b.path_prefix)
}

/// Whether two capabilities are the same permission.
pub open spec fn cap_eq(a: Capability, b: Capability) -> bool {
    match (a, b) {
        (Capability::FileSystemRead(p), Capability::FileSystemRead(q)) => path_eq(p, q),
        (Capability::FileSystemWrite(p), Capability::FileSystemWrite(q)) => path_eq(p, q),
        (Capability::NetworkFetch(p), Capability::NetworkFetch(q)) => url_eq(p, q),
        (Capability::BlockRead, Capability::BlockRead) => true,
        (Capability::BlockWrite, Capability::BlockWrite) => true,
        (Capability::PaletteAddAction, Capability::PaletteAddAction) => true,
        (Capability::ConfigRead, Capability::ConfigRead) => true,
        (Capability::ConfigWrite, Capability::ConfigWrite) => true,
        (Capability::AiAccess, Capability::AiAccess) => true,
        _ => false,
    }
}

/// Whether `s` holds a capability equal to `c`.
pub open spec fn holds(s: Seq<Capability>, c: Capability) -> bool {
    exists|i: int| 0 <= i < s.len() && cap_eq(#[trigger] s[i], c)
}

/// Whether `path` lies under `base`: a recursive pattern matches by prefix,
/// another one by the path's parent directory.
pub open spec fn path_allowed(path: Seq<char>, p: PathPattern) -> bool {
    if p.recursive {
        is_prefix(p.base@, path)
    } else {
        crate::capability::parent_dir(path) == p.base@
    }
}

/// The parent directory of `path`, as `Path::parent` gives it; empty for
/// none.
pub uninterp spec fn parent_dir(path: Seq<char>) -> Seq<char>;

/// Relies on `Path::parent`: the parent directory of `path`, which depends
/// on `path` alone; the empty string when there is none.
#[verifier::external_body]
fn parent_of(path: &str) -> (r: String)
    ensures
        r@ == parent_dir(path@),
{
    std::path::Path::new(path).parent().map(|p| p.to_string_lossy().into_owned()).unwrap_or_default()
}

/// Whether `c` grants access of the given kind to `path`.
pub open spec fn grants(c: Capability, path: Seq<char>, write: bool) -> bool {
    match c {
        Capability::FileSystemRead(p) => !write && path_allowed(path, p),
        Capability::FileSystemWrite(p) => write && path_allowed(path, p),
        _ => false,
    }
}

/// The capability that a manifest string names: a base name alone, or
/// `fs.read:`, `fs.write:` or `net.fetch:` followed by its argument.
pub open spec fn parsed_capability(s: Seq<char>, r: Option<Capability>) -> bool {
    if s == "block.read"@ {
        r matches Some(Capability::BlockRead)
    } else if s == "block.write"@ {
        r matches Some(Capability::BlockWrite)
    } else if s == "palette.add_action"@ {
        r matches Some(Capability::PaletteAddAction)
    } else if s == "config.read"@ {
        r matches Some(Capability::ConfigRead)
    } else if s == "config.write"@ {
        r matches Some(Capability::ConfigWrite)
    } else if s == "ai.access"@ {
        r matches Some(Capability::AiAccess)
    } else if is_prefix("fs.read:"@, s) {
        r matches Some(Capability::FileSystemRead(p)) && p.base@ == s.subrange(8, s.len() as int)
            && p.recursive && p.extensions@.len() == 0
    } else if is_prefix("fs.write:"@, s) {
        r matches Some(Capability::FileSystemWrite(p)) && p.base@ == s.subrange(9, s.len() as int)
            && p.recursive && p.extensions@.len() == 0
    } else if is_prefix("net.fetch:"@, s) {
        r matches Some(Capability::NetworkFetch(u)) && u.host@ == s.subrange(10, s.len() as int)
            && u.scheme is None && u.port is None && u.path_prefix is None
    } else {
        r is None
    }
}

/// Whether one of the first `n` strings of `caps` names capability `c`.
pub open spec fn named_among(caps: Seq<String>, n: int, c: Capability) -> bool {
    exists|j: int| 0 <= j < n && parsed_capability(#[trigger] caps[j]@, Some(c))
}

/// A copy of a vector of strings.
fn copy_strings(v: &Vec<String>) -> (r: Vec<String>)
    ensures
        r@ == v@,
{
    let mut r: Vec<String> = Vec::new();
    let mut i: usize = 0;
    while i < v.len()
        invariant
            i <= v@.len(),
            r@ == v@.subrange(0, i as int),
        decreases v@.len() - i,
    {
        r.push(v[i].clone());
        i = i + 1;
        assert(r@ =~= v@.subrange(0, i as int));
    }
    assert(v@.subrange(0, v@.len() as int) =~= v@);
    r
}

/// A copy of an optional string.
fn copy_opt_string(s: &Option<String>) -> (r: Option<String>)
    ensures
        opt_chars(r) == opt_chars(*s),
{
    match s {
        Some(t) => Some(t.clone()),
        None => None,
    }
}

/// Whether two optional strings hold the same characters.
fn same_opt(a: &Option<String>, b: &Option<String>) -> (r: bool)
    ensures
        r == (opt_chars(*a) == opt_chars(*b)),
{
    match (a, b) {
        (Some(x), Some(y)) => same_text(x.as_str(), y.as_str()),
        (None, None) => true,
        _ => false,
    }
}

/// Whether two vectors of strings hold the same strings.
fn same_strings(a: &Vec<String>, b: &Vec<String>) -> (r: bool)
    ensures
        r == (strings_view(a@) == strings_view(b@)),
{
    if a.len() != b.len() {
        assert(strings_view(a@).len() != strings_view(b@).len());
        return false;
    }
    let mut i: usize = 0;
    while i < a.len()
        invariant
            a@.len() == b@.len(),
            i <= a@.len(),
            forall|k: int| 0 <= k < i ==> (#[trigger] a@[k])@ == b@[k]@,
        decreases a@.len() - i,
    {
        if !same_text(a[i].as_str(), b[i].as_str()) {
            assert(strings_view(a@)[i as int] != strings_view(b@)[i as int]);
            return false;
        }
        i = i + 1;
    }
    assert(strings_view(a@) =~= strings_view(b@));
    true
}

impl PathPattern {
    /// A pattern rooted at `base`.
    pub fn new(base: String, recursive: bool, extensions: Vec<String>) -> (p: PathPattern)
        ensures
            p == (PathPattern { base, recursive, extensions }),
    {
        PathPattern { base, recursive, extensions }
    }

    /// Whether files with extension `extension` are allowed: any is when the
    /// list is empty.
    pub fn allows_extension(&self, extension: &str) -> (r: bool)
        ensures
            r == (self.extensions@.len() == 0 || exists|i: int| 0 <= i < self.extensions@.len()
                && (#[trigger] self.extensions@[i])@ == extension@),
    {
        if self.extensions.len() == 0 {
            return true;
        }
        let mut i: usize = 0;
        while i < self.extensions.len()
            invariant
                i <= self.extensions@.len(),
                forall|k: int| 0 <= k < i ==> (#[trigger] self.extensions@[k])@ != extension@,
            decreases self.extensions@.len() - i,
        {
            if same_text(self.extensions[i].as_str(), extension) {
                return true;
            }
            i = i + 1;
        }
        false
    }

    /// A copy of this pattern.
    pub fn copy(&self) -> (p: PathPattern)
        ensures
            path_eq(p, *self),
    {
        PathPattern { base: self.base.clone(), recursive: self.recursive, extensions: copy_strings(&self.extensions) }
    }
}

impl UrlPattern {
    /// A pattern for host `host`, any scheme, port and path.
    pub fn new(host: String) -> (u: UrlPattern)
        ensures
            u == (UrlPattern { scheme: None, host, port: None, path_prefix: None }),
    {
        UrlPattern { scheme: None, host, port: None, path_prefix: None }
    }

    /// Whether `url` contains the pattern's host.
    pub fn matches(&self, url: &str) -> (r: bool)
        ensures
            r == has_substring(url@, self.host@),
    {
        let u = chars_of(url);
        let h = chars_of(self.host.as_str());
        contains_chars(&u, &h)
    }

    /// A copy of this pattern.
    pub fn copy(&self) -> (u: UrlPattern)
        ensures
            url_eq(u, *self),
    {
        UrlPattern {
            scheme: copy_opt_string(&self.scheme),
            host: self.host.clone(),
            port: self.port,
            path_prefix: copy_opt_string(&self.path_prefix),
        }
    }
}

impl Capability {
    /// A copy of this capability.
    pub fn copy(&self) -> (c: Capability)
        ensures
            cap_eq(c, *self),
    {
        match self {
            Capability::FileSystemRead(p) => Capability::FileSystemRead(p.copy()),
            Capability::FileSystemWrite(p) => Capability::FileSystemWrite(p.copy()),
            Capability::NetworkFetch(u) => Capability::NetworkFetch(u.copy()),
            Capability::BlockRead => Capability::BlockRead,
            Capability::BlockWrite => Capability::BlockWrite,
            Capability::PaletteAddAction => Capability::PaletteAddAction,
            Capability::ConfigRead => Capability::ConfigRead,
            Capability::ConfigWrite => Capability::ConfigWrite,
            Capability::AiAccess => Capability::AiAccess,
        }
    }

    /// Whether `self` and `other` are the same permission.
    pub fn same_as(&self, other: &Capability) -> (r: bool)
        ensures
            r == cap_eq(*self, *other),
    {
        match (self, other) {
            (Capability::FileSystemRead(p), Capability::FileSystemRead(q)) => same_path(p, q),
            (Capability::FileSystemWrite(p), Capability::FileSystemWrite(q)) => same_path(p, q),
            (Capability::NetworkFetch(p), Capability::NetworkFetch(q)) => {
                same_opt(&p.scheme, &q.scheme) && same_text(p.host.as_str(), q.host.as_str()) && p.port == q.port
                    && same_opt(&p.path_prefix, &q.path_prefix)
            },
            (Capability::BlockRead, Capability::BlockRead) => true,
            (Capability::BlockWrite, Capability::BlockWrite) => true,
            (Capability::PaletteAddAction, Capability::PaletteAddAction) => true,
            (Capability::ConfigRead, Capability::ConfigRead) => true,
            (Capability::ConfigWrite, Capability::ConfigWrite) => true,
            (Capability::AiAccess, Capability::AiAccess) => true,
            _ => false,
        }
    }
}

/// Whether two path patterns hold the same values.
fn same_path(p: &PathPattern, q: &PathPattern) -> (r: bool)
    ensures
        r == path_eq(*p, *q),
{
    same_text(p.base.as_str(), q.base.as_str()) && p.recursive == q.recursive && same_strings(&p.extensions, &q.extensions)
}

/// The capabilities of one plugin, without repeats.
#[derive(Debug, Clone)]
pub struct CapabilitySet {
    /// The granted capabilities.
    pub capabilities: Vec<Capability>,
    /// The plugin they belong to.
    pub plugin_id: String,
}

/// The message of a refused file access.
pub open spec fn denial_message(plugin: Seq<char>, path: Seq<char>, write: bool) -> Seq<char> {
    "Plugin "@ + plugin + " does not have "@ + (if write { "write"@ } else { "read"@ }) + " access to path: "@ + path
}

impl CapabilitySet {
    /// No capability is held twice.
    pub open spec fn wf(&self) -> bool {
        forall|i: int, j: int| 0 <= i < j < self.capabilities@.len() ==> !cap_eq(#[trigger] self.capabilities@[i], #[trigger] self.capabilities@[j])
    }

    /// An empty set for plugin `plugin_id`.
    pub fn new(plugin_id: String) -> (c: CapabilitySet)
        ensures
            c.wf(),
            c.capabilities@.len() == 0,
            c.plugin_id == plugin_id,
    {
        CapabilitySet { capabilities: Vec::new(), plugin_id }
    }

    /// The capability that a manifest string names, if any.
    pub fn parse_capability_string(cap_str: &str) -> (r: Option<Capability>)
        ensures
            parsed_capability(cap_str@, r),
    {
        proof {
            reveal_strlit("block.read");
            reveal_strlit("block.write");
            reveal_strlit("palette.add_action");
            reveal_strlit("config.read");
            reveal_strlit("config.write");
            reveal_strlit("ai.access");
            reveal_strlit("fs.read:");
            reveal_strlit("fs.write:");
            reveal_strlit("net.fetch:");
        }
        if same_text(cap_str, "block.read") {
            return Some(Capability::BlockRead);
        }
        if same_text(cap_str, "block.write") {
            return Some(Capability::BlockWrite);
        }
        if same_text(cap_str, "palette.add_action") {
            return Some(Capability::PaletteAddAction);
        }
        if same_text(cap_str, "config.read") {
            return Some(Capability::ConfigRead);
        }
        if same_text(cap_str, "config.write") {
            return Some(Capability::ConfigWrite);
        }
        if same_text(cap_str, "ai.access") {
            return Some(Capability::AiAccess);
        }
        let s = chars_of(cap_str);
        let fs_read = chars_of("fs.read:");
        if starts_with_chars(&s, &fs_read) {
            let base = string_from(&s, 8);
            return Some(Capability::FileSystemRead(PathPattern { base, recursive: true, extensions: Vec::new() }));
        }
        let fs_write = chars_of("fs.write:");
        if starts_with_chars(&s, &fs_write) {
            let base = string_from(&s, 9);
            return Some(Capability::FileSystemWrite(PathPattern { base, recursive: true, extensions: Vec::new() }));
        }
        let net = chars_of("net.fetch:");
        if starts_with_chars(&s, &net) {
            let host = string_from(&s, 10);
            return Some(Capability::NetworkFetch(UrlPattern { scheme: None, host, port: None, path_prefix: None }));
        }
        None
    }

    /// The set of the capabilities that the strings `caps` name, for plugin
    /// `plugin_id`; strings that name none are passed over.
    pub fn from_capability_strings(plugin_id: String, caps: &Vec<String>) -> (c: CapabilitySet)
        ensures
            c.wf(),
            c.plugin_id == plugin_id,
            forall|i: int, r: Option<Capability>|
                0 <= i < caps@.len() && #[trigger] parsed_capability(caps@[i]@, r) && r is Some ==> holds(c.capabilities@, r->0),
            forall|k: int| 0 <= k < c.capabilities@.len() ==> named_among(caps@, caps@.len() as int, #[trigger] c.capabilities@[k]),
    {
        let mut set = CapabilitySet::new(plugin_id);
        let mut i: usize = 0;
        while i < caps.len()
            invariant
                set.wf(),
                set.plugin_id == plugin_id,
                i <= caps@.len(),
                forall|j: int, r: Option<Capability>|
                    0 <= j < i && #[trigger] parsed_capability(caps@[j]@, r) && r is Some ==> holds(set.capabilities@, r->0),
                forall|k: int| 0 <= k < set.capabilities@.len() ==> named_among(caps@, i as int, #[trigger] set.capabilities@[k]),
            decreases caps@.len() - i,
        {
            let parsed = CapabilitySet::parse_capability_string(caps[i].as_str());
            match parsed {
                Some(cap) => {
                    let ghost old_caps = set.capabilities@;
                    set.add_capability(cap);
                    proof {
                        assert forall|j: int, r: Option<Capability>|
                            0 <= j < i + 1 && #[trigger] parsed_capability(caps@[j]@, r) && r is Some implies holds(set.capabilities@, r->0) by {
                            if j < i {
                                assert(holds(old_caps, r->0));
                            } else {
                                lemma_parse_unique(caps@[j]@, r, parsed);
                                lemma_holds_eq(set.capabilities@, cap, r->0);
                            }
                        }
                        assert forall|k: int| 0 <= k < set.capabilities@.len() implies named_among(caps@, i + 1, #[trigger] set.capabilities@[k]) by {
                            if k < old_caps.len() {
                                assert(set.capabilities@[k] == old_caps[k]);
                                assert(named_among(caps@, i as int, old_caps[k]));
                                let j = choose|j: int| 0 <= j < i && parsed_capability(#[trigger] caps@[j]@, Some(old_caps[k]));
                                assert(parsed_capability(caps@[j]@, Some(set.capabilities@[k])));
                            } else {
                                assert(set.capabilities@[k] == cap);
                                assert(parsed_capability(caps@[i as int]@, Some(set.capabilities@[k])));
                            }
                        }
                    }
                },
                None => {
                    proof {
                        assert forall|r: Option<Capability>|
                            #[trigger] parsed_capability(caps@[i as int]@, r) implies r is None by {
                            lemma_parse_unique(caps@[i as int]@, r, parsed);
                        }
                        assert forall|k: int| 0 <= k < set.capabilities@.len() implies named_among(caps@, i + 1, #[trigger] set.capabilities@[k]) by {
                            let j = choose|j: int| 0 <= j < i && parsed_capability(#[trigger] caps@[j]@, Some(set.capabilities@[k]));
                        }
                    }
                },
            }
            i = i + 1;
        }
        set
    }

    /// The capabilities that manifest `manifest` requests, for the plugin
    /// it names; strings that name no capability are passed over.
    pub fn from_manifest(manifest: &crate::manifest::PluginManifest) -> (c: CapabilitySet)
        ensures
            c.wf(),
            c.plugin_id@ == manifest.name@,
            forall|i: int, r: Option<Capability>|
                0 <= i < manifest.capabilities@.len() && #[trigger] parsed_capability(manifest.capabilities@[i]@, r) && r is Some
                ==> holds(c.capabilities@, r->0),
            forall|k: int| 0 <= k < c.capabilities@.len()
                ==> named_among(manifest.capabilities@, manifest.capabilities@.len() as int, #[trigger] c.capabilities@[k]),
    {
        CapabilitySet::from_capability_strings(manifest.name.clone(), &manifest.capabilities)
    }

    /// Whether the set holds `capability`.
    pub fn has_capability(&self, capability: &Capability) -> (r: bool)
        ensures
            r == holds(self.capabilities@, *capability),
    {
        let mut i: usize = 0;
        while i < self.capabilities.len()
            invariant
                i <= self.capabilities@.len(),
                forall|k: int| 0 <= k < i ==> !cap_eq(#[trigger] self.capabilities@[k], *capability),
            decreases self.capabilities@.len() - i,
        {
            if self.capabilities[i].same_as(capability) {
                return true;
            }
            i = i + 1;
        }
        false
    }

    /// Grants `capability`; a capability already held is not added again.
    pub fn add_capability(&mut self, capability: Capability)
        requires
            old(self).wf(),
        ensures
            final(self).wf(),
            final(self).plugin_id == old(self).plugin_id,
            holds(old(self).capabilities@, capability) ==> final(self).capabilities@ == old(self).capabilities@,
            !holds(old(self).capabilities@, capability) ==> final(self).capabilities@ == old(self).capabilities@.push(capability),
            holds(final(self).capabilities@, capability),
            forall|c: Capability| holds(old(self).capabilities@, c) ==> #[trigger] holds(final(self).capabilities@, c),
    {
        if !self.has_capability(&capability) {
            self.capabilities.push(capability);
            proof {
                assert forall|i: int, j: int| 0 <= i < j < self.capabilities@.len() implies !cap_eq(
                    #[trigger] self.capabilities@[i],
                    #[trigger] self.capabilities@[j],
                ) by {
                    if j == self.capabilities@.len() - 1 {
                        assert(self.capabilities@[i] == old(self).capabilities@[i]);
                        lemma_cap_eq_symmetric(self.capabilities@[i], capability);
                    } else {
                        assert(self.capabilities@[i] == old(self).capabilities@[i]);
                        assert(self.capabilities@[j] == old(self).capabilities@[j]);
                    }
                }
                assert(cap_eq(capability, capability));
                assert(cap_eq(self.capabilities@[self.capabilities@.len() - 1], capability));
                assert forall|c: Capability| holds(old(self).capabilities@, c) implies #[trigger] holds(self.capabilities@, c) by {
                    let t = choose|t: int| 0 <= t < old(self).capabilities@.len() && cap_eq(#[trigger] old(self).capabilities@[t], c);
                    assert(self.capabilities@[t] == old(self).capabilities@[t]);
                }
            }
        }
    }

    /// Withdraws `capability`.
    pub fn remove_capability(&mut self, capability: &Capability)
        requires
            old(self).wf(),
        ensures
            final(self).wf(),
            final(self).plugin_id == old(self).plugin_id,
            !holds(final(self).capabilities@, *capability),
            forall|c: Capability| !cap_eq(c, *capability) ==> (holds(final(self).capabilities@, c) <==> holds(old(self).capabilities@, c)),
    {
        let mut i: usize = 0;
        while i < self.capabilities.len()
            invariant
                i <= self.capabilities@.len(),
                self.wf(),
                self.plugin_id == old(self).plugin_id,
                forall|k: int| 0 <= k < i ==> !cap_eq(#[trigger] self.capabilities@[k], *capability),
                forall|c: Capability| !cap_eq(c, *capability) ==> (holds(self.capabilities@, c) <==> holds(old(self).capabilities@, c)),
            decreases self.capabilities@.len() - i,
        {
            if self.capabilities[i].same_as(capability) {
                let ghost before = self.capabilities@;
                self.capabilities.remove(i);
                proof {
                    assert forall|c: Capability| !cap_eq(c, *capability) implies (holds(self.capabilities@, c) <==> holds(before, c)) by {
                        if holds(before, c) {
                            let t = choose|t: int| 0 <= t < before.len() && cap_eq(#[trigger] before[t], c);
                            if t == i {
                                lemma_cap_eq_trans(before[t], c, *capability);
                            } else if t < i {
                                assert(self.capabilities@[t] == before[t]);
                            } else {
                                assert(self.capabilities@[t - 1] == before[t]);
                            }
                        }
                        if holds(self.capabilities@, c) {
                            let t = choose|t: int| 0 <= t < self.capabilities@.len() && cap_eq(#[trigger] self.capabilities@[t], c);
                            if t < i {
                                assert(self.capabilities@[t] == before[t]);
                            } else {
                                assert(self.capabilities@[t] == before[t + 1]);
                            }
                        }
                    }
                    assert forall|a: int, b: int| 0 <= a < b < self.capabilities@.len() implies !cap_eq(
                        #[trigger] self.capabilities@[a],
                        #[trigger] self.capabilities@[b],
                    ) by {
                        let a0 = if a < i { a } else { a + 1 };
                        let b0 = if b < i { b } else { b + 1 };
                        assert(self.capabilities@[a] == before[a0]);
                        assert(self.capabilities@[b] == before[b0]);
                    }
                    assert forall|k: int| 0 <= k < i implies !cap_eq(#[trigger] self.capabilities@[k], *capability) by {
                        assert(self.capabilities@[k] == before[k]);
                    }
                    assert forall|k: int| i <= k < self.capabilities@.len() implies !cap_eq(#[trigger] self.capabilities@[k], *capability) by {
                        assert(self.capabilities@[k] == before[k + 1]);
                        assert(!cap_eq(before[i as int], before[k + 1]));
                        lemma_cap_eq_trans_neg(before[i as int], before[k + 1], *capability);
                    }
                }
                assert(!holds(self.capabilities@, *capability));
                return;
            }
            i = i + 1;
        }
    }

    /// Copies of the granted capabilities.
    pub fn capabilities(&self) -> (r: Vec<Capability>)
        ensures
            r@.len() == self.capabilities@.len(),
            forall|i: int| 0 <= i < r@.len() ==> cap_eq(#[trigger] r@[i], self.capabilities@[i]),
    {
        let mut r: Vec<Capability> = Vec::new();
        let mut i: usize = 0;
        while i < self.capabilities.len()
            invariant
                i <= self.capabilities@.len(),
                r@.len() == i,
                forall|k: int| 0 <= k < i ==> cap_eq(#[trigger] r@[k], self.capabilities@[k]),
            decreases self.capabilities@.len() - i,
        {
            r.push(self.capabilities[i].copy());
            i = i + 1;
        }
        r
    }

    /// Whether `path` matches `pattern`: by prefix for a recursive pattern,
    /// by parent directory otherwise.
    pub fn path_matches_pattern(path: &str, pattern: &PathPattern) -> (r: bool)
        ensures
            r == path_allowed(path@, *pattern),
    {
        if pattern.recursive {
            let p = chars_of(path);
            let b = chars_of(pattern.base.as_str());
            starts_with_chars(&p, &b)
        } else {
            let parent = parent_of(path);
            same_text(parent.as_str(), pattern.base.as_str())
        }
    }

    /// Accepts access to `path` (for writing when `write`) when a matching
    /// read or write capability covers it; otherwise an error naming the
    /// plugin, the kind of access and the path.
    pub fn check_file_access(&self, path: &str, write: bool) -> (r: Result<(), String>)
        ensures
            r is Ok <==> exists|i: int| 0 <= i < self.capabilities@.len() && grants(#[trigger] self.capabilities@[i], path@, write),
            r matches Err(m) ==> m@ == denial_message(self.plugin_id@, path@, write),
    {
        let mut i: usize = 0;
        while i < self.capabilities.len()
            invariant
                i <= self.capabilities@.len(),
                forall|k: int| 0 <= k < i ==> !grants(#[trigger] self.capabilities@[k], path@, write),
            decreases self.capabilities@.len() - i,
        {
            let ok = match &self.capabilities[i] {
                Capability::FileSystemRead(p) => !write && CapabilitySet::path_matches_pattern(path, p),
                Capability::FileSystemWrite(p) => write && CapabilitySet::path_matches_pattern(path, p),
                _ => false,
            };
            if ok {
                return Ok(());
            }
            i = i + 1;
        }
        let mut m: Vec<char> = Vec::new();
        push_str_chars(&mut m, "Plugin ");
        push_str_chars(&mut m, self.plugin_id.as_str());
        push_str_chars(&mut m, " does not have ");
        if write {
            push_str_chars(&mut m, "write");
        } else {
            push_str_chars(&mut m, "read");
        }
        push_str_chars(&mut m, " access to path: ");
        push_str_chars(&mut m, path);
        Err(string_of(&m))
    }

    /// The plugin these capabilities belong to.
    pub fn plugin_id(&self) -> (r: &str)
        ensures
            r@ == self.plugin_id@,
    {
        self.plugin_id.as_str()
    }
}

/// `cap_eq` is symmetric.
proof fn lemma_cap_eq_symmetric(a: Capability, b: Capability)
    ensures
        cap_eq(a, b) == cap_eq(b, a),
{
}

/// `cap_eq` is transitive.
proof fn lemma_cap_eq_trans(a: Capability, b: Capability, c: Capability)
    requires
        cap_eq(a, b),
        cap_eq(b, c),
    ensures
        cap_eq(a, c),
{
}

/// Two capabilities that differ cannot both equal a third.
proof fn lemma_cap_eq_trans_neg(a: Capability, b: Capability, c: Capability)
    requires
        !cap_eq(a, b),
        cap_eq(a, c),
    ensures
        !cap_eq(b, c),
{
}

/// Holding `a` is holding anything equal to it.
proof fn lemma_holds_eq(s: Seq<Capability>, a: Capability, b: Capability)
    requires
        holds(s, a),
        cap_eq(a, b),
    ensures
        holds(s, b),
{
    let t = choose|t: int| 0 <= t < s.len() && cap_eq(#[trigger] s[t], a);
    lemma_cap_eq_trans(s[t], a, b);
}

/// A manifest string names at most one capability, up to equality.
pub proof fn lemma_parsed_capability_unique(s: Seq<char>, a: Option<Capability>, b: Option<Capability>)
    requires
        parsed_capability(s, a),
        parsed_capability(s, b),
    ensures
        a is None <==> b is None,
        a is Some ==> cap_eq(b->0, a->0),
{
    lemma_parse_unique(s, a, b);
}

/// Holding a capability is holding any equal one.
pub proof fn lemma_holds_equal(s: Seq<Capability>, a: Capability, b: Capability)
    requires
        holds(s, a),
        cap_eq(a, b),
    ensures
        holds(s, b),
{
    lemma_holds_eq(s, a, b);
}

/// A manifest string names at most one capability, up to equality.
proof fn lemma_parse_unique(s: Seq<char>, a: Option<Capability>, b: Option<Capability>)
    requires
        parsed_capability(s, a),
        parsed_capability(s, b),
    ensures
        a is None <==> b is None,
        a is Some ==> cap_eq(b->0, a->0),
{
    if a is Some && b is Some {
        match (a->0, b->0) {
            (Capability::FileSystemRead(p), Capability::FileSystemRead(q)) => {
                assert(strings_view(q.extensions@) =~= strings_view(p.extensions@));
            },
            (Capability::FileSystemWrite(p), Capability::FileSystemWrite(q)) => {
                assert(strings_view(q.extensions@) =~= strings_view(p.extensions@));
            },
            _ => {},
        }
    }
}

/// Descriptive metadata of a plugin.
#[derive(Debug, Clone)]
pub struct PluginMetadata {
    /// Name.
    pub name: String,
    /// Version.
    pub version: String,
    /// Description.
    pub description: String,
    /// Author.
    pub author: Option<String>,
    /// License.
    pub license: Option<String>,
    /// Homepage.
    pub homepage: Option<String>,
}

/// What the host knows of one plugin instance: its capabilities, limits,
/// metadata and environment.
#[derive(Debug, Clone)]
pub struct HostContext {
    /// Granted capabilities.
    pub capabilities: CapabilitySet,
    /// Most bytes of memory.
    pub memory_limit: u64,
    /// Longest wall time of a call.
    pub time_limit: TimeSpan,
    /// The plugin's metadata.
    pub plugin_metadata: PluginMetadata,
    /// Environment variables, each key once.
    pub environment: Vec<(String, String)>,
}

/// Whether `e` binds `key` to `value`.
pub open spec fn binds(e: Seq<(String, String)>, key: Seq<char>, value: Seq<char>) -> bool {
    exists|i: int| 0 <= i < e.len() && (#[trigger] e[i]).0@ == key && e[i].1@ == value
}

/// Whether no key of `e` occurs twice.
pub open spec fn keys_unique(e: Seq<(String, String)>) -> bool {
    forall|i: int, j: int| 0 <= i < j < e.len() ==> (#[trigger] e[i]).0@ != (#[trigger] e[j]).0@
}

/// Binds `key` to `value` in `env`, replacing an earlier value.
fn env_insert(env: &mut Vec<(String, String)>, key: String, value: String)
    requires
        keys_unique(old(env)@),
    ensures
        keys_unique(final(env)@),
        binds(final(env)@, key@, value@),
        forall|k: Seq<char>, v: Seq<char>| k != key@ ==> (binds(final(env)@, k, v) <==> binds(old(env)@, k, v)),
{
    let mut i: usize = 0;
    while i < env.len()
        invariant
            i <= env@.len(),
            env@ == old(env)@,
            keys_unique(old(env)@),
            forall|k: int| 0 <= k < i ==> (#[trigger] env@[k]).0@ != key@,
        decreases env@.len() - i,
    {
        if same_text(env[i].0.as_str(), key.as_str()) {
            let ghost before = env@;
            let k2 = env[i].0.clone();
            env.set(i, (k2, value));
            proof {
                assert(env@[i as int].0@ == key@);
                assert forall|k: Seq<char>, v: Seq<char>| k != key@ implies (binds(env@, k, v) <==> binds(before, k, v)) by {
                    if binds(env@, k, v) {
                        let t = choose|t: int| 0 <= t < env@.len() && (#[trigger] env@[t]).0@ == k && env@[t].1@ == v;
                        assert(t != i);
                        assert(before[t] == env@[t]);
                    }
                    if binds(before, k, v) {
                        let t = choose|t: int| 0 <= t < before.len() && (#[trigger] before[t]).0@ == k && before[t].1@ == v;
                        assert(t != i);
                        assert(before[t] == env@[t]);
                    }
                }
                assert forall|a: int, b: int| 0 <= a < b < env@.len() implies (#[trigger] env@[a]).0@ != (#[trigger] env@[b]).0@ by {
                    assert(env@[a].0@ == before[a].0@);
                    assert(env@[b].0@ == before[b].0@);
                    assert(before[a].0@ != before[b].0@);
                }
            }
            return;
        }
        i = i + 1;
    }
    let ghost before = env@;
    env.push((key, value));
    proof {
        let n = before.len() as int;
        assert(env@[n].0@ == key@ && env@[n].1@ == value@);
        assert forall|k: Seq<char>, v: Seq<char>| k != key@ implies (binds(env@, k, v) <==> binds(before, k, v)) by {
            if binds(env@, k, v) {
                let t = choose|t: int| 0 <= t < env@.len() && (#[trigger] env@[t]).0@ == k && env@[t].1@ == v;
                assert(t != n);
                assert(before[t] == env@[t]);
            }
            if binds(before, k, v) {
                let t = choose|t: int| 0 <= t < before.len() && (#[trigger] before[t]).0@ == k && before[t].1@ == v;
                assert(before[t] == env@[t]);
            }
        }
        assert forall|a: int, b: int| 0 <= a < b < env@.len() implies (#[trigger] env@[a]).0@ != (#[trigger] env@[b]).0@ by {
            if b == n {
                assert(env@[a] == before[a]);
            } else {
                assert(env@[a] == before[a]);
                assert(env@[b] == before[b]);
            }
        }
    }
}

impl HostContext {
    /// The context of plugin `plugin_id`: its capabilities, the memory and
    /// time limits of `limits`, and an environment binding `PLUGIN_ID`,
    /// `PLUGIN_NAME` and `PLUGIN_VERSION`.
    pub fn new(plugin_id: String, capabilities: CapabilitySet, limits: &ExecutionLimits, metadata: PluginMetadata) -> (h: HostContext)
        ensures
            h.capabilities == capabilities,
            h.memory_limit == limits.max_memory,
            h.time_limit == limits.max_time,
            h.plugin_metadata == metadata,
            keys_unique(h.environment@),
            binds(h.environment@, "PLUGIN_ID"@, plugin_id@),
            binds(h.environment@, "PLUGIN_NAME"@, metadata.name@),
            binds(h.environment@, "PLUGIN_VERSION"@, metadata.version@),
            h.environment@.len() == 3,
    {
        proof {
            reveal_strlit("PLUGIN_ID");
            reveal_strlit("PLUGIN_NAME");
            reveal_strlit("PLUGIN_VERSION");
        }
        let mut environment: Vec<(String, String)> = Vec::new();
        environment.push(("PLUGIN_ID".to_owned(), plugin_id));
        environment.push(("PLUGIN_NAME".to_owned(), metadata.name.clone()));
        environment.push(("PLUGIN_VERSION".to_owned(), metadata.version.clone()));
        proof {
            assert(environment@[0].0@ == "PLUGIN_ID"@);
            assert(environment@[1].0@ == "PLUGIN_NAME"@);
            assert(environment@[2].0@ == "PLUGIN_VERSION"@);
            assert(binds(environment@, "PLUGIN_ID"@, plugin_id@));
            assert(binds(environment@, "PLUGIN_NAME"@, metadata.name@));
            assert(binds(environment@, "PLUGIN_VERSION"@, metadata.version@));
        }
        HostContext {
            capabilities,
            memory_limit: limits.max_memory,
            time_limit: limits.max_time,
            plugin_metadata: metadata,
            environment,
        }
    }

    /// Whether the plugin holds `capability`.
    pub fn has_capability(&self, capability: &Capability) -> (r: bool)
        ensures
            r == holds(self.capabilities.capabilities@, *capability),
    {
        self.capabilities.has_capability(capability)
    }

    /// Binds `key` to `value`, replacing an earlier value.
    pub fn add_environment_variable(&mut self, key: String, value: String)
        requires
            keys_unique(old(self).environment@),
        ensures
            keys_unique(final(self).environment@),
            binds(final(self).environment@, key@, value@),
            forall|k: Seq<char>, v: Seq<char>| k != key@ ==> (binds(final(self).environment@, k, v) <==> binds(old(self).environment@, k, v)),
            final(self).capabilities == old(self).capabilities,
            final(self).memory_limit == old(self).memory_limit,
            final(self).time_limit == old(self).time_limit,
    {
        env_insert(&mut self.environment, key, value);
    }

    /// Copies of the environment's bindings.
    pub fn environment_variables(&self) -> (r: Vec<(String, String)>)
        ensures
            r@ == self.environment@,
    {
        let mut r: Vec<(String, String)> = Vec::new();
        let mut i: usize = 0;
        while i < self.environment.len()
            invariant
                i <= self.environment@.len(),
                r@ == self.environment@.subrange(0, i as int),
            decreases self.environment@.len() - i,
        {
            let (k, v) = &self.environment[i];
            r.push((k.clone(), v.clone()));
            i = i + 1;
            assert(r@ =~= self.environment@.subrange(0, i as int));
        }
        assert(self.environment@.subrange(0, self.environment@.len() as int) =~= self.environment@);
        r
    }
}

} // verus!
