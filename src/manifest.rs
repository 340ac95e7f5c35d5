//! Plugin manifests and the rules a manifest must meet before its plugin
//! is loaded.

use vstd::prelude::*;
use crate::text::{chars_of, ends_with_chars, is_prefix, is_suffix, same_text, starts_with_chars};

verus! {

/// A value of a plugin's configuration schema.
#[derive(Debug)]
pub enum ConfigValue {
    /// Text.
    String(String),
    /// An integer.
    Integer(i64),
    /// A floating-point number, held as its IEEE 754 bits.
    Float(u64),
    /// A truth value.
    Boolean(bool),
    /// A list of values.
    Array(Vec<ConfigValue>),
    /// Named values.
    Object(Vec<(String, ConfigValue)>),
}

/// A plugin's declared metadata, as read from its `plugin.toml`.
#[derive(Debug)]
pub struct PluginManifest {
    /// Plugin name.
    pub name: String,
    /// Plugin version, two or three dotted integers.
    pub version: String,
    /// Description.
    pub description: String,
    /// File name of the WASM module.
    pub entry_point: String,
    /// Requested capabilities.
    pub capabilities: Vec<String>,
    /// Required host version.
    pub quantaterm_version: String,
    /// Author.
    pub author: Option<String>,
    /// License.
    pub license: Option<String>,
    /// Homepage.
    pub homepage: Option<String>,
    /// Source repository.
    pub repository: Option<String>,
    /// Keywords for discovery.
    pub keywords: Option<Vec<String>>,
    /// Settings the plugin accepts, by name.
    pub config_schema: Option<Vec<(String, ConfigValue)>>,
}

/// Why a manifest was rejected.
#[derive(Debug)]
pub enum ManifestError {
    /// The manifest file could not be read.
    IoError(std::io::Error),
    /// The manifest is not valid TOML for a manifest; the parser's message.
    TomlError(String),
    /// The name breaks the naming rules.
    InvalidName(String),
    /// The version is not two or three dotted integers.
    InvalidVersion(String),
    /// A required field is empty.
    MissingField(String),
    /// A capability with an unknown base.
    UnknownCapability(String),
    /// The required host version does not fit the running one.
    IncompatibleVersion {
        /// What the plugin requires.
        required: String,
        /// What the host is.
        current: String,
    },
    /// The entry point is not a `.wasm` file.
    InvalidEntryPoint(String),
}

/// Whether `c` may stand in a plugin name.
pub open spec fn name_char(c: char) -> bool {
    ('a' <= c && c <= 'z') || ('A' <= c && c <= 'Z') || ('0' <= c && c <= '9') || c == '_' || c == '-'
}

/// The capability bases that plugins may request.
pub open spec fn default_capability_names() -> Seq<Seq<char>> {
    seq![
        "block.read"@,
        "block.write"@,
        "palette.add_action"@,
        "config.read"@,
        "config.write"@,
        "ai.access"@,
        "fs.read"@,
        "fs.write"@,
        "net.fetch"@,
    ]
}

/// Whether `s` is a plugin name: 1 to 64 letters, digits, `_` and `-`,
/// neither starting nor ending with `-`.
pub open spec fn valid_plugin_name(s: Seq<char>) -> bool {
    0 < s.len() <= 64 && (forall|i: int| 0 <= i < s.len() ==> #[trigger] name_char(s[i])) && s[0] != '-'
        && s.last() != '-'
}

/// Whether `c` is an ASCII digit.
pub open spec fn is_digit(c: char) -> bool {
    '0' <= c && c <= '9'
}

/// The value of the decimal digits `s`.
pub open spec fn digits_value(s: Seq<char>) -> nat
    decreases s.len(),
{
    if s.len() == 0 {
        0
    } else {
        digits_value(s.drop_last()) * 10 + (s.last() as nat - '0' as nat) as nat
    }
}

/// Whether `s` is a decimal number that fits in 32 bits.
pub open spec fn is_u32_number(s: Seq<char>) -> bool {
    s.len() > 0 && (forall|i: int| 0 <= i < s.len() ==> #[trigger] is_digit(s[i])) && digits_value(s) <= u32::MAX
}

/// Whether `s` is two or three numbers joined by dots.
pub open spec fn valid_version(s: Seq<char>) -> bool {
    (exists|d: int| 0 <= d < s.len() && s[d] == '.' && #[trigger] is_u32_number(s.subrange(0, d)) && is_u32_number(s.subrange(d + 1, s.len() as int)))
    || (exists|d: int, e: int| 0 <= d < e < s.len() && s[d] == '.' && s[e] == '.' && #[trigger] is_u32_number(s.subrange(0, d))
        && #[trigger] is_u32_number(s.subrange(d + 1, e)) && is_u32_number(s.subrange(e + 1, s.len() as int)))
}

/// Whether `cap` has one of the `allowed` bases, alone or followed by `:`
/// and an argument.
pub open spec fn capability_allowed(allowed: Seq<String>, cap: Seq<char>) -> bool {
    exists|i: int| 0 <= i < allowed.len() && (cap == (#[trigger] allowed[i])@ || is_prefix(allowed[i]@.push(':'), cap))
}

/// Whether `s` is a plugin name.
fn check_plugin_name(s: &Vec<char>) -> (r: bool)
    ensures
        r == valid_plugin_name(s@),
{
    if s.len() == 0 || s.len() > 64 {
        return false;
    }
    let mut i: usize = 0;
    while i < s.len()
        invariant
            i <= s@.len(),
            forall|k: int| 0 <= k < i ==> #[trigger] name_char(s@[k]),
        decreases s@.len() - i,
    {
        let c = s[i];
        if !(('a' <= c && c <= 'z') || ('A' <= c && c <= 'Z') || ('0' <= c && c <= '9') || c == '_' || c == '-') {
            assert(!name_char(s@[i as int]));
            return false;
        }
        i = i + 1;
    }
    s[0] != '-' && s[s.len() - 1] != '-'
}

/// Whether `s[lo..hi]` is a decimal number that fits in 32 bits.
fn check_number(s: &Vec<char>, lo: usize, hi: usize) -> (r: bool)
    requires
        lo <= hi <= s@.len(),
    ensures
        r == is_u32_number(s@.subrange(lo as int, hi as int)),
{
    let ghost t = s@.subrange(lo as int, hi as int);
    if lo == hi {
        return false;
    }
    let mut v: u64 = 0;
    let mut i: usize = lo;
    proof {
        assert(t.subrange(0, 0) =~= Seq::<char>::empty());
    }
    while i < hi
        invariant
            lo <= i <= hi <= s@.len(),
            t == s@.subrange(lo as int, hi as int),
            forall|k: int| 0 <= k < i - lo ==> #[trigger] is_digit(t[k]),
            v == digits_value(t.subrange(0, i - lo)),
            v <= u32::MAX,
        decreases hi - i,
    {
        let c = s[i];
        if !('0' <= c && c <= '9') {
            assert(!is_digit(t[i - lo]));
            return false;
        }
        proof {
            let p = t.subrange(0, i - lo + 1);
            assert(p.drop_last() =~= t.subrange(0, i - lo));
            assert(p.last() == c);
        }
        v = v * 10 + (c as u64 - '0' as u64);
        if v > u32::MAX as u64 {
            proof {
                lemma_digits_value_grows(t, i - lo + 1);
            }
            return false;
        }
        i = i + 1;
    }
    assert(t.subrange(0, hi - lo) =~= t);
    true
}

/// A longer run of digits is worth at least as much as its prefix.
proof fn lemma_digits_value_grows(t: Seq<char>, n: int)
    requires
        0 <= n <= t.len(),
    ensures
        digits_value(t) >= digits_value(t.subrange(0, n)),
    decreases t.len(),
{
    if t.len() > n {
        let d = t.drop_last();
        assert(d.subrange(0, n) =~= t.subrange(0, n));
        lemma_digits_value_grows(d, n);
    } else {
        assert(t.subrange(0, n) =~= t);
    }
}

/// The position of the first dot at or after `from`.
fn first_dot(s: &Vec<char>, from: usize) -> (r: Option<usize>)
    requires
        from <= s@.len(),
    ensures
        r matches Some(d) ==> from <= d < s@.len() && s@[d as int] == '.' && forall|k: int| from <= k < d ==> #[trigger] s@[k] != '.',
        r is None ==> forall|k: int| from <= k < s@.len() ==> #[trigger] s@[k] != '.',
{
    let mut i: usize = from;
    while i < s.len()
        invariant
            from <= i <= s@.len(),
            forall|k: int| from <= k < i ==> #[trigger] s@[k] != '.',
        decreases s@.len() - i,
    {
        if s[i] == '.' {
            return Some(i);
        }
        i = i + 1;
    }
    None
}

/// A number holds no dot.
proof fn lemma_number_has_no_dot(s: Seq<char>, lo: int, hi: int, k: int)
    requires
        0 <= lo <= k < hi <= s.len(),
        is_u32_number(s.subrange(lo, hi)),
    ensures
        s[k] != '.',
{
    assert(s.subrange(lo, hi)[k - lo] == s[k]);
    assert(is_digit(s.subrange(lo, hi)[k - lo]));
}

impl PluginManifest {
    /// A manifest with only a name and an entry point: version 1.0.0, no
    /// capability, host version 0.1.0.
    pub fn minimal(name: &str, entry_point: &str) -> (m: PluginManifest)
        ensures
            m.name@ == name@,
            m.entry_point@ == entry_point@,
            m.version@ == "1.0.0"@,
            m.description@ == "Test plugin"@,
            m.capabilities@.len() == 0,
            m.quantaterm_version@ == "0.1.0"@,
            m.author is None && m.license is None && m.homepage is None && m.repository is None && m.keywords is None,
            m.config_schema is None,
    {
        PluginManifest {
            name: name.to_owned(),
            version: "1.0.0".to_owned(),
            description: "Test plugin".to_owned(),
            entry_point: entry_point.to_owned(),
            capabilities: Vec::new(),
            quantaterm_version: "0.1.0".to_owned(),
            author: None,
            license: None,
            homepage: None,
            repository: None,
            keywords: None,
            config_schema: None,
        }
    }

    /// Whether the manifest requests `capability` exactly.
    pub fn has_capability(&self, capability: &str) -> (r: bool)
        ensures
            r == exists|i: int| 0 <= i < self.capabilities@.len() && (#[trigger] self.capabilities@[i])@ == capability@,
    {
        let mut i: usize = 0;
        while i < self.capabilities.len()
            invariant
                i <= self.capabilities@.len(),
                forall|k: int| 0 <= k < i ==> (#[trigger] self.capabilities@[k])@ != capability@,
            decreases self.capabilities@.len() - i,
        {
            if same_text(self.capabilities[i].as_str(), capability) {
                return true;
            }
            i = i + 1;
        }
        false
    }

    /// The name followed by ` v` and the version.
    pub fn display_name(&self) -> (r: String)
        ensures
            r@ == self.name@ + " v"@ + self.version@,
    {
        let mut v: Vec<char> = Vec::new();
        crate::text::push_str_chars(&mut v, self.name.as_str());
        crate::text::push_str_chars(&mut v, " v");
        crate::text::push_str_chars(&mut v, self.version.as_str());
        crate::text::string_of(&v)
    }
}

/// Checks manifests against the naming, version, entry-point and
/// capability rules.
#[derive(Debug, Clone)]
pub struct ManifestLoader {
    /// The running host's version.
    pub current_quantaterm_version: String,
    /// The capability bases that plugins may request.
    pub allowed_capabilities: Vec<String>,
}

impl ManifestLoader {
    /// A loader for this host version with the standard capability bases.
    pub fn new() -> (l: ManifestLoader)
        ensures
            l.current_quantaterm_version@ == crate::components::VERSION@,
            l.allowed_capabilities@.len() == default_capability_names().len(),
            forall|i: int| 0 <= i < l.allowed_capabilities@.len() ==> (#[trigger] l.allowed_capabilities@[i])@
                == default_capability_names()[i],
    {
        ManifestLoader {
            current_quantaterm_version: crate::components::VERSION.to_owned(),
            allowed_capabilities: ManifestLoader::default_capabilities(),
        }
    }

    /// The standard capability bases.
    pub fn default_capabilities() -> (v: Vec<String>)
        ensures
            v@.len() == default_capability_names().len(),
            forall|i: int| 0 <= i < v@.len() ==> (#[trigger] v@[i])@ == default_capability_names()[i],
    {
        let mut v: Vec<String> = Vec::new();
        v.push("block.read".to_owned());
        v.push("block.write".to_owned());
        v.push("palette.add_action".to_owned());
        v.push("config.read".to_owned());
        v.push("config.write".to_owned());
        v.push("ai.access".to_owned());
        v.push("fs.read".to_owned());
        v.push("fs.write".to_owned());
        v.push("net.fetch".to_owned());
        v
    }

    /// Whether `name` is a valid plugin name.
    pub fn is_valid_plugin_name(name: &str) -> (r: bool)
        ensures
            r == valid_plugin_name(name@),
    {
        let s = chars_of(name);
        check_plugin_name(&s)
    }

    /// Whether `version` is two or three dotted integers.
    pub fn is_valid_version(version: &str) -> (r: bool)
        ensures
            r == valid_version(version@),
    {
        let s = chars_of(version);
        let d1 = match first_dot(&s, 0) {
            Some(d) => d,
            None => {
                proof {
                    if valid_version(version@) {
                        if exists|d: int| 0 <= d < s@.len() && s@[d] == '.' && #[trigger] is_u32_number(s@.subrange(0, d)) && is_u32_number(s@.subrange(d + 1, s@.len() as int)) {
                            let d = choose|d: int| 0 <= d < s@.len() && s@[d] == '.' && #[trigger] is_u32_number(s@.subrange(0, d)) && is_u32_number(s@.subrange(d + 1, s@.len() as int));
                            assert(s@[d] != '.');
                        } else {
                            let (d, e) = choose|d: int, e: int| 0 <= d < e < s@.len() && s@[d] == '.' && s@[e] == '.' && #[trigger] is_u32_number(s@.subrange(0, d))
                                && #[trigger] is_u32_number(s@.subrange(d + 1, e)) && is_u32_number(s@.subrange(e + 1, s@.len() as int));
                            assert(s@[d] != '.');
                        }
                    }
                }
                return false;
            },
        };
        let n = s.len();
        let head = check_number(&s, 0, d1);
        if head && check_number(&s, d1 + 1, n) {
            return true;
        }
        let d2 = first_dot(&s, d1 + 1);
        let r = match d2 {
            Some(d2) => head && check_number(&s, d1 + 1, d2) && check_number(&s, d2 + 1, n),
            None => false,
        };
        proof {
            if valid_version(version@) && !r {
                if exists|d: int| 0 <= d < s@.len() && s@[d] == '.' && #[trigger] is_u32_number(s@.subrange(0, d)) && is_u32_number(s@.subrange(d + 1, s@.len() as int)) {
                    let d = choose|d: int| 0 <= d < s@.len() && s@[d] == '.' && #[trigger] is_u32_number(s@.subrange(0, d)) && is_u32_number(s@.subrange(d + 1, s@.len() as int));
                    if d < d1 {
                        assert(s@[d] != '.');
                    } else if d > d1 {
                        lemma_number_has_no_dot(s@, 0, d, d1 as int);
                    }
                } else {
                    let (d, e) = choose|d: int, e: int| 0 <= d < e < s@.len() && s@[d] == '.' && s@[e] == '.' && #[trigger] is_u32_number(s@.subrange(0, d))
                        && #[trigger] is_u32_number(s@.subrange(d + 1, e)) && is_u32_number(s@.subrange(e + 1, s@.len() as int));
                    if d < d1 {
                        assert(s@[d] != '.');
                    } else if d > d1 {
                        lemma_number_has_no_dot(s@, 0, d, d1 as int);
                    } else {
                        match d2 {
                            Some(x) => {
                                if e < x {
                                    assert(s@[e] != '.');
                                } else if e > x {
                                    lemma_number_has_no_dot(s@, d + 1, e, x as int);
                                }
                            },
                            None => {
                                assert(s@[e] != '.');
                            },
                        }
                    }
                }
            }
        }
        r
    }

    /// Whether both versions are valid.
    pub fn is_version_compatible(required: &str, current: &str) -> (r: bool)
        ensures
            r == (valid_version(required@) && valid_version(current@)),
    {
        ManifestLoader::is_valid_version(required) && ManifestLoader::is_valid_version(current)
    }

    /// Whether `capability` has an allowed base, alone or followed by `:`
    /// and an argument.
    pub fn is_capability_allowed(&self, capability: &str) -> (r: bool)
        ensures
            r == capability_allowed(self.allowed_capabilities@, capability@),
    {
        let c = chars_of(capability);
        let mut i: usize = 0;
        while i < self.allowed_capabilities.len()
            invariant
                c@ == capability@,
                i <= self.allowed_capabilities@.len(),
                forall|k: int| 0 <= k < i ==> !(capability@ == (#[trigger] self.allowed_capabilities@[k])@
                    || is_prefix(self.allowed_capabilities@[k]@.push(':'), capability@)),
            decreases self.allowed_capabilities@.len() - i,
        {
            let a = &self.allowed_capabilities[i];
            if same_text(a.as_str(), capability) {
                return true;
            }
            let mut p = chars_of(a.as_str());
            p.push(':');
            if starts_with_chars(&c, &p) {
                return true;
            }
            i = i + 1;
        }
        false
    }

    /// Checks `manifest`, in order: name present and valid, version present
    /// and valid, entry point present and a `.wasm` file, every capability
    /// allowed, host versions valid.
    pub fn validate_manifest(&self, manifest: &PluginManifest) -> (r: Result<(), ManifestError>)
        ensures
            r is Ok <==> (valid_plugin_name(manifest.name@) && valid_version(manifest.version@)
                && manifest.entry_point@.len() > 0 && is_suffix(".wasm"@, manifest.entry_point@)
                && (forall|i: int| 0 <= i < manifest.capabilities@.len() ==> capability_allowed(
                    self.allowed_capabilities@,
                    (#[trigger] manifest.capabilities@[i])@,
                ))
                && valid_version(manifest.quantaterm_version@) && valid_version(self.current_quantaterm_version@)),
            manifest.name@.len() == 0 ==> (r matches Err(ManifestError::MissingField(f)) && f@ == "name"@),
            manifest.name@.len() > 0 && !valid_plugin_name(manifest.name@)
                ==> (r matches Err(ManifestError::InvalidName(n)) && n@ == manifest.name@),
            valid_plugin_name(manifest.name@) && manifest.version@.len() == 0
                ==> (r matches Err(ManifestError::MissingField(f)) && f@ == "version"@),
            valid_plugin_name(manifest.name@) && manifest.version@.len() > 0 && !valid_version(manifest.version@)
                ==> (r matches Err(ManifestError::InvalidVersion(v)) && v@ == manifest.version@),
            valid_plugin_name(manifest.name@) && valid_version(manifest.version@) && manifest.entry_point@.len() == 0
                ==> (r matches Err(ManifestError::MissingField(f)) && f@ == "entry_point"@),
            valid_plugin_name(manifest.name@) && valid_version(manifest.version@) && manifest.entry_point@.len() > 0
                && !is_suffix(".wasm"@, manifest.entry_point@)
                ==> (r matches Err(ManifestError::InvalidEntryPoint(e)) && e@ == manifest.entry_point@),
            r matches Err(ManifestError::UnknownCapability(c)) ==> exists|i: int| 0 <= i < manifest.capabilities@.len()
                && (#[trigger] manifest.capabilities@[i])@ == c@ && !capability_allowed(self.allowed_capabilities@, c@),
    {
        proof {
            reveal_strlit(".wasm");
        }
        let name = chars_of(manifest.name.as_str());
        if name.len() == 0 {
            return Err(ManifestError::MissingField("name".to_owned()));
        }
        if !check_plugin_name(&name) {
            return Err(ManifestError::InvalidName(manifest.name.clone()));
        }
        let version = chars_of(manifest.version.as_str());
        if version.len() == 0 {
            return Err(ManifestError::MissingField("version".to_owned()));
        }
        if !ManifestLoader::is_valid_version(manifest.version.as_str()) {
            return Err(ManifestError::InvalidVersion(manifest.version.clone()));
        }
        let entry = chars_of(manifest.entry_point.as_str());
        if entry.len() == 0 {
            return Err(ManifestError::MissingField("entry_point".to_owned()));
        }
        let wasm = chars_of(".wasm");
        if !ends_with_chars(&entry, &wasm) {
            return Err(ManifestError::InvalidEntryPoint(manifest.entry_point.clone()));
        }
        let mut i: usize = 0;
        while i < manifest.capabilities.len()
            invariant
                i <= manifest.capabilities@.len(),
                valid_plugin_name(manifest.name@),
                manifest.name@.len() > 0,
                valid_version(manifest.version@),
                manifest.version@.len() > 0,
                manifest.entry_point@.len() > 0,
                is_suffix(".wasm"@, manifest.entry_point@),
                forall|k: int| 0 <= k < i ==> capability_allowed(self.allowed_capabilities@, (#[trigger] manifest.capabilities@[k])@),
            decreases manifest.capabilities@.len() - i,
        {
            if !self.is_capability_allowed(manifest.capabilities[i].as_str()) {
                return Err(ManifestError::UnknownCapability(manifest.capabilities[i].clone()));
            }
            i = i + 1;
        }
        if !ManifestLoader::is_version_compatible(manifest.quantaterm_version.as_str(), self.current_quantaterm_version.as_str()) {
            return Err(ManifestError::IncompatibleVersion {
                required: manifest.quantaterm_version.clone(),
                current: self.current_quantaterm_version.clone(),
            });
        }
        Ok(())
    }
}

} // verus!
