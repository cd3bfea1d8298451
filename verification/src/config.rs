//! Configuration surface of the generator: the naming scheme, the plugin
//! name, and the full plugin configuration with its builder methods.

use vstd::prelude::*;

verus! {

/// How state-names are determined.
#[derive(Clone, Copy, Debug, PartialEq, Eq, Structural)]
pub enum NamingScheme {
    /// Name includes the names of all ancestors.
    Full,
    /// Name includes only the name of the immediate parent.
    Short,
    /// No prefix at all (all names must be unique on their own); named
    /// `None` in configuration text.
    NoPrefix,
}

/// The display name of a naming scheme.
pub open spec fn scheme_name(s: NamingScheme) -> Seq<char> {
    match s {
        NamingScheme::Full => "Full"@,
        NamingScheme::Short => "Short"@,
        NamingScheme::NoPrefix => "None"@,
    }
}

/// The lower-case tag of a naming scheme.
pub open spec fn scheme_tag(s: NamingScheme) -> Seq<char> {
    match s {
        NamingScheme::Full => "full"@,
        NamingScheme::Short => "short"@,
        NamingScheme::NoPrefix => "none"@,
    }
}

/// The scheme denoted by a string: either its name or its tag.
pub open spec fn spec_scheme_of(s: Seq<char>) -> Option<NamingScheme> {
    if s == "full"@ || s == "Full"@ {
        Option::Some(NamingScheme::Full)
    } else if s == "short"@ || s == "Short"@ {
        Option::Some(NamingScheme::Short)
    } else if s == "none"@ || s == "None"@ {
        Option::Some(NamingScheme::NoPrefix)
    } else {
        Option::None
    }
}

impl NamingScheme {
    /// Get the name of the naming scheme.
    pub fn name(&self) -> (r: &'static str)
        ensures
            r@ == scheme_name(*self),
    {
        match self {
            NamingScheme::Full => "Full",
            NamingScheme::Short => "Short",
            NamingScheme::NoPrefix => "None",
        }
    }

    /// Get the identifying tag for this scheme.
    pub fn tag(&self) -> (r: String)
        ensures
            r@ == scheme_tag(*self),
    {
        match self {
            NamingScheme::Full => String::from_str("full"),
            NamingScheme::Short => String::from_str("short"),
            NamingScheme::NoPrefix => String::from_str("none"),
        }
    }

    /// Convert a string into a naming scheme, if it is a scheme's name or tag.
    pub fn try_parse(input: &str) -> (r: Option<NamingScheme>)
        ensures
            r == spec_scheme_of(input@),
    {
        let owned = input.to_owned();
        if owned == String::from_str("full") || owned == String::from_str("Full") {
            Option::Some(NamingScheme::Full)
        } else if owned == String::from_str("short") || owned == String::from_str("Short") {
            Option::Some(NamingScheme::Short)
        } else if owned == String::from_str("none") || owned == String::from_str("None") {
            Option::Some(NamingScheme::NoPrefix)
        } else {
            Option::None
        }
    }
}

impl Default for NamingScheme {
    /// The default scheme prefixes every name with all of its ancestors.
    fn default() -> (r: Self)
        ensures
            r == NamingScheme::Full,
    {
        NamingScheme::Full
    }
}

/// Whether a character is an ASCII letter.
pub open spec fn is_alpha_char(c: char) -> bool {
    ('A' <= c && c <= 'Z') || ('a' <= c && c <= 'z')
}

/// Whether a character is an ASCII upper-case letter.
pub open spec fn is_upper_char(c: char) -> bool {
    'A' <= c && c <= 'Z'
}

/// How the plugin is rendered: as a struct implementing the host's plugin
/// trait, or as a free function taking the application builder.
#[derive(Clone, Debug, PartialEq, Eq)]
pub enum PluginName {
    /// Rendered as `pub struct Name;` with a trait implementation.
    Struct(String),
    /// Rendered as `pub fn name(app: ...)`.
    Function(String),
}

/// Mathematical image of a [`PluginName`].
pub ghost enum PluginNameV {
    Struct { name: Seq<char> },
    Function { name: Seq<char> },
}

impl View for PluginName {
    type V = PluginNameV;

    open spec fn view(&self) -> PluginNameV {
        match self {
            PluginName::Struct(name) => PluginNameV::Struct { name: name@ },
            PluginName::Function(name) => PluginNameV::Function { name: name@ },
        }
    }
}

/// The plugin-name variant denoted by a string: `Struct` when the first
/// character is an upper-case letter, `Function` when it is any other
/// letter, nothing when the string does not start with a letter.
pub open spec fn spec_plugin_name_of(s: Seq<char>) -> Option<PluginNameV> {
    if s.len() > 0 && is_upper_char(s[0]) {
        Option::Some(PluginNameV::Struct { name: s })
    } else if s.len() > 0 && is_alpha_char(s[0]) {
        Option::Some(PluginNameV::Function { name: s })
    } else {
        Option::None
    }
}

impl PluginName {
    /// Create the appropriate variant from the casing of the first letter.
    pub fn parse(input: &str) -> (r: Option<PluginName>)
        ensures
            match r {
                Option::Some(p) => spec_plugin_name_of(input@) == Option::Some(p@),
                Option::None => spec_plugin_name_of(input@) is None,
            },
    {
        let n = input.unicode_len();
        if n == 0 {
            return Option::None;
        }
        let c = input.get_char(0);
        if 'A' <= c && c <= 'Z' {
            Option::Some(PluginName::Struct(input.to_owned()))
        } else if 'a' <= c && c <= 'z' {
            Option::Some(PluginName::Function(input.to_owned()))
        } else {
            Option::None
        }
    }

    /// Create the `Struct` variant.
    pub fn new_struct(name: &str) -> (r: Self)
        ensures
            r@ == (PluginNameV::Struct { name: name@ }),
    {
        PluginName::Struct(name.to_owned())
    }

    /// Create the `Function` variant.
    pub fn new_function(name: &str) -> (r: Self)
        ensures
            r@ == (PluginNameV::Function { name: name@ }),
    {
        PluginName::Function(name.to_owned())
    }
}

/// The views of a sequence of strings.
pub open spec fn strs_view(v: Seq<String>) -> Seq<Seq<char>> {
    v.map_values(|s: String| s@)
}

/// Keep the first occurrence of every string, in order, and drop the rest.
pub open spec fn dedup_keep_first(s: Seq<Seq<char>>) -> Seq<Seq<char>>
    decreases s.len(),
{
    if s.len() == 0 {
        Seq::empty()
    } else {
        let prefix = dedup_keep_first(s.drop_last());
        if prefix.contains(s.last()) {
            prefix
        } else {
            prefix.push(s.last())
        }
    }
}

/// Whether a vector of strings holds a string with the given view.
pub(crate) fn contains_string(v: &Vec<String>, s: &String) -> (b: bool)
    ensures
        b == strs_view(v@).contains(s@),
{
    let n = v.len();
    for i in 0..n
        invariant
            n == v.len(),
            forall|j: int| 0 <= j < i ==> strs_view(v@)[j] != s@,
    {
        proof {
            assert(strs_view(v@)[i as int] == v@[i as int]@);
        }
        if v[i].eq(s) {
            return true;
        }
    }
    assert(!strs_view(v@).contains(s@));
    false
}

/// Append each string of `extra` to `base`, then keep only the first
/// occurrence of every string.
pub(crate) fn extend_unique(base: Vec<String>, extra: &Vec<String>) -> (r: Vec<String>)
    ensures
        strs_view(r@) == dedup_keep_first(strs_view(base@) + strs_view(extra@)),
{
    let ghost all: Seq<Seq<char>> = strs_view(base@) + strs_view(extra@);
    let mut out: Vec<String> = Vec::new();
    let n = base.len();
    for i in 0..n
        invariant
            n == base.len(),
            all == strs_view(base@) + strs_view(extra@),
            strs_view(out@) == dedup_keep_first(all.take(i as int)),
    {
        proof {
            assert(all.take(i + 1).drop_last() =~= all.take(i as int));
            assert(all.take(i + 1).last() == base@[i as int]@);
        }
        if !contains_string(&out, &base[i]) {
            out.push(base[i].clone());
        }
    }
    let m = extra.len();
    for i in 0..m
        invariant
            m == extra.len(),
            n == base.len(),
            all == strs_view(base@) + strs_view(extra@),
            strs_view(out@) == dedup_keep_first(all.take(n + i)),
    {
        proof {
            assert(all.take(n + i + 1).drop_last() =~= all.take(n + i));
            assert(all.take(n + i + 1).last() == extra@[i as int]@);
        }
        if !contains_string(&out, &extra[i]) {
            out.push(extra[i].clone());
        }
    }
    proof {
        assert(all.take(n + m) =~= all);
    }
    out
}

/// Configuration for the generated plugin.
#[derive(Clone, Debug)]
pub struct PluginConfig {
    /// Name of the emitted plugin construct.
    pub plugin_name: PluginName,
    /// Name of the synthetic root state; `None` means no root node is added
    /// and every top-level state is registered independently.
    pub root_state_name: Option<String>,
    /// Name of the inner module containing the generated states.
    pub states_module_name: String,
    /// How generated states are named.
    pub naming_scheme: NamingScheme,
    /// These additional trait names are added to the derive list.
    pub additional_derives: Vec<String>,
}

/// Mathematical image of a [`PluginConfig`].
pub ghost struct PluginConfigV {
    pub plugin_name: PluginNameV,
    pub root_state_name: Option<Seq<char>>,
    pub states_module_name: Seq<char>,
    pub naming_scheme: NamingScheme,
    pub additional_derives: Seq<Seq<char>>,
}

impl View for PluginConfig {
    type V = PluginConfigV;

    open spec fn view(&self) -> PluginConfigV {
        PluginConfigV {
            plugin_name: self.plugin_name@,
            root_state_name: match self.root_state_name {
                Option::Some(ref s) => Option::Some(s@),
                Option::None => Option::None,
            },
            states_module_name: self.states_module_name@,
            naming_scheme: self.naming_scheme,
            additional_derives: strs_view(self.additional_derives@),
        }
    }
}

impl PluginConfig {
    /// Set the plugin name to a struct name (`UpperCamelCase`).
    pub fn with_plugin_struct_name(self, name: &str) -> (r: Self)
        ensures
            r@ == (PluginConfigV { plugin_name: PluginNameV::Struct { name: name@ }, ..self@ }),
    {
        PluginConfig { plugin_name: PluginName::Struct(name.to_owned()), ..self }
    }

    /// Set the plugin name to a function name (`snake_case`).
    pub fn with_plugin_fn_name(self, name: &str) -> (r: Self)
        ensures
            r@ == (PluginConfigV { plugin_name: PluginNameV::Function { name: name@ }, ..self@ }),
    {
        PluginConfig { plugin_name: PluginName::Function(name.to_owned()), ..self }
    }

    /// Set the name of the inner module containing the generated states.
    pub fn with_states_module_name(self, name: &str) -> (r: Self)
        ensures
            r@ == (PluginConfigV { states_module_name: name@, ..self@ }),
    {
        PluginConfig { states_module_name: name.to_owned(), ..self }
    }

    /// Set the name of the root state; the configuration then asks for a
    /// synthetic root node of that name.
    pub fn with_root_state_name(self, name: &str) -> (r: Self)
        ensures
            r@ == (PluginConfigV { root_state_name: Option::Some(name@), ..self@ }),
    {
        PluginConfig { root_state_name: Option::Some(name.to_owned()), ..self }
    }

    /// Configure how generated states are named.
    pub fn with_naming_scheme(self, scheme: NamingScheme) -> (r: Self)
        ensures
            r@ == (PluginConfigV { naming_scheme: scheme, ..self@ }),
    {
        PluginConfig { naming_scheme: scheme, ..self }
    }

    /// Add trait names to the derive list, dropping repeated names.
    pub fn with_additional_derives(self, derives: &Vec<String>) -> (r: Self)
        ensures
            r@ == (PluginConfigV {
                additional_derives: dedup_keep_first(self@.additional_derives + strs_view(derives@)),
                ..self@
            }),
    {
        let extended = extend_unique(self.additional_derives, derives);
        PluginConfig { additional_derives: extended, ..self }
    }
}

/// The default configuration: a struct-style plugin named
/// `GeneratedStatesPlugin`, a root state named `GameState`, a states module
/// named `states`, full ancestral naming and no extra derives.
impl Default for PluginConfig {
    fn default() -> (r: Self)
        ensures
            r@.plugin_name == (PluginNameV::Struct { name: "GeneratedStatesPlugin"@ }),
            r@.root_state_name == Option::Some("GameState"@),
            r@.states_module_name == "states"@,
            r@.naming_scheme == NamingScheme::Full,
            r@.additional_derives == Seq::<Seq<char>>::empty(),
    {
        PluginConfig {
            plugin_name: PluginName::Struct(String::from_str("GeneratedStatesPlugin")),
            root_state_name: Option::Some(String::from_str("GameState")),
            states_module_name: String::from_str("states"),
            naming_scheme: NamingScheme::Full,
            additional_derives: Vec::new(),
        }
    }
}

} // verus!
