//! The persisted configuration tree and the tweak-mode evaluator: per-target
//! tweak configurations, the allow/deny rule deciding whether a named plugin
//! loads, the "skip if equivalent to default" persistence rule, and the
//! global compatibility-mode overrides.

use vstd::prelude::*;

use crate::apps::{
    app_with_id, first_app_match, first_id_match, fix_app_name, get_friendly_app_name,
    lemma_first_app_match, App,
};
use crate::smap::{get_val, has_key, map_wf, SMap};
use crate::strutil::{
    chars_eq, chars_eq_str, file_name_of, file_name_spec, fold_chars, fold_spec, is_abs,
    is_abs_exec, str_eq, trim_ascii, trim_spec,
};

verus! {

/// Stored compatibility-mode value meaning the framework's native mode; the
/// default, pruned from the persisted file.
pub const COMPAT_LIBHOOKER: bool = true;

/// Stored compatibility-mode value meaning the legacy substrate mode.
pub const COMPAT_SUBSTRATE: bool = false;

/// Polarity of the per-plugin stored flag: under `Allow` the flag means
/// "explicitly permitted", under `Deny` it means "explicitly forbidden".
#[derive(Debug, Clone, Copy, PartialEq, Eq, Structural)]
pub enum TweakMode {
    Allow,
    Deny,
}

/// The truth table of the evaluator: XNOR of "mode is Allow" and the flag.
pub open spec fn spec_check(mode: TweakMode, val: bool) -> bool {
    (mode == TweakMode::Allow) == val
}

impl TweakMode {
    /// Decide whether a plugin with stored flag `val` loads under this mode.
    pub fn check(&self, val: bool) -> (r: bool)
        ensures
            r == spec_check(*self, val),
    {
        match self {
            TweakMode::Allow => val,
            TweakMode::Deny => !val,
        }
    }
}

/// The mathematical reading of a [`TweakConfig`].
pub struct TweakCfgV {
    pub custom_config: bool,
    pub enable_tweaks: bool,
    pub tweak_configs: Seq<(Seq<char>, bool)>,
    pub allow_or_deny: TweakMode,
}

/// Per-target settings: whether the target's overrides apply, the master
/// switch for tweak loading, the allow/deny polarity, and the per-plugin
/// flags.
pub struct TweakConfig {
    pub custom_config: bool,
    pub enable_tweaks: bool,
    pub tweak_configs: SMap<bool>,
    pub allow_or_deny: TweakMode,
}

impl View for TweakConfig {
    type V = TweakCfgV;

    open spec fn view(&self) -> TweakCfgV {
        TweakCfgV {
            custom_config: self.custom_config,
            enable_tweaks: self.enable_tweaks,
            tweak_configs: self.tweak_configs@,
            allow_or_deny: self.allow_or_deny,
        }
    }
}

/// Whether a plugin with this name loads under the configuration: nothing
/// loads with tweaks disabled, unknown plugins never load, and a known flag
/// is read under the configuration's own mode.
pub open spec fn spec_will_load(c: TweakCfgV, name: Seq<char>) -> bool {
    &&& c.enable_tweaks
    &&& has_key(c.tweak_configs, name)
    &&& spec_check(c.allow_or_deny, get_val(c.tweak_configs, name))
}

/// Whether persisting this configuration can be skipped: it has no entries,
/// or every entry already evaluates to "loads" under its own mode.
pub open spec fn spec_should_skip(c: TweakCfgV) -> bool {
    c.tweak_configs.len() == 0 || (forall|i: int|
        0 <= i < c.tweak_configs.len() ==> spec_check(
            c.allow_or_deny,
            (#[trigger] c.tweak_configs[i]).1,
        ))
}

/// Whether `key` is the name of one of the known plugins.
pub open spec fn plugin_named(plugins: Seq<String>, key: Seq<char>) -> bool {
    exists|i: int| 0 <= i < plugins.len() && (#[trigger] plugins[i])@ == key
}

/// A freshly seeded configuration: overrides off, tweaks enabled, deny-list
/// polarity, and every known plugin present with flag `false`.
pub open spec fn is_fresh_for(c: TweakCfgV, plugins: Seq<String>) -> bool {
    &&& c.custom_config == false
    &&& c.enable_tweaks == true
    &&& c.allow_or_deny == TweakMode::Deny
    &&& forall|key: Seq<char>|
        #[trigger] has_key(c.tweak_configs, key) == plugin_named(plugins, key)
    &&& forall|key: Seq<char>|
        has_key(c.tweak_configs, key) ==> #[trigger] get_val(c.tweak_configs, key) == false
}

impl TweakConfig {
    /// Well-formed: the per-plugin flag map is sorted.
    pub open spec fn wf(&self) -> bool {
        map_wf(self@.tweak_configs)
    }

    /// A fresh configuration seeded with every currently-known plugin name
    /// mapped to `false`.
    pub fn fresh(plugins: &Vec<String>) -> (r: TweakConfig)
        ensures
            r.wf(),
            is_fresh_for(r@, plugins@),
    {
        let mut m: SMap<bool> = SMap::new();
        let n: usize = plugins.len();
        let mut i: usize = 0;
        while i < n
            invariant
                0 <= i <= n,
                n == plugins@.len(),
                m.wf(),
                forall|key: Seq<char>|
                    #[trigger] has_key(m@, key) == plugin_named(plugins@.subrange(0, i as int), key),
                forall|key: Seq<char>|
                    has_key(m@, key) ==> #[trigger] get_val(m@, key) == false,
            decreases n - i,
        {
            let ghost subi = plugins@.subrange(0, i as int);
            m.insert(plugins[i].clone(), false);
            proof {
                let subi1 = plugins@.subrange(0, i + 1);
                assert forall|key: Seq<char>| #[trigger]
                    plugin_named(subi1, key) == (plugin_named(subi, key) || plugins@[i as int]@
                        == key) by {
                    if plugin_named(subi1, key) {
                        let w = choose|w: int|
                            0 <= w < subi1.len() && (#[trigger] subi1[w])@ == key;
                        if w < i {
                            assert(subi[w]@ == key);
                        }
                    }
                    if plugin_named(subi, key) {
                        let w = choose|w: int| 0 <= w < subi.len() && (#[trigger] subi[w])@ == key;
                        assert(subi1[w]@ == key);
                    }
                    if plugins@[i as int]@ == key {
                        assert(subi1[i as int]@ == key);
                    }
                }
            }
            i = i + 1;
        }
        proof {
            assert(plugins@.subrange(0, n as int) =~= plugins@);
        }
        TweakConfig {
            custom_config: false,
            enable_tweaks: true,
            tweak_configs: m,
            allow_or_deny: TweakMode::Deny,
        }
    }

    /// An identical copy.
    pub fn duplicate(&self) -> (r: TweakConfig)
        ensures
            r@ == self@,
    {
        TweakConfig {
            custom_config: self.custom_config,
            enable_tweaks: self.enable_tweaks,
            tweak_configs: self.tweak_configs.duplicate(),
            allow_or_deny: self.allow_or_deny,
        }
    }

    /// Check whether a tweak will load or not, from the tweak mode and the
    /// plugin's stored flag.
    pub fn will_tweak_load(&self, name: &str) -> (r: bool)
        requires
            self.wf(),
        ensures
            r == spec_will_load(self@, name@),
    {
        if !self.enable_tweaks {
            return false;
        }
        match self.tweak_configs.get(name) {
            Some(s) => self.allow_or_deny.check(*s),
            None => false,
        }
    }

    /// Check whether this configuration needs to be persisted at all: with no
    /// entries, or with every entry evaluating to "loads" anyway, the stored
    /// form would change nothing.
    pub fn should_skip(&self) -> (r: bool)
        ensures
            r == spec_should_skip(self@),
    {
        let n: usize = self.tweak_configs.len();
        if n == 0 {
            return true;
        }
        let mut i: usize = 0;
        while i < n
            invariant
                0 <= i <= n,
                n == self@.tweak_configs.len(),
                forall|j: int|
                    0 <= j < i ==> spec_check(
                        self@.allow_or_deny,
                        (#[trigger] self@.tweak_configs[j]).1,
                    ),
            decreases n - i,
        {
            if !self.allow_or_deny.check(*self.tweak_configs.val_at(i)) {
                return false;
            }
            i = i + 1;
        }
        true
    }
}

/// The per-target halves of the tree: executable paths, app bundles, and the
/// global default configuration.
pub struct ConfigTypes {
    pub paths: SMap<TweakConfig>,
    pub bundles: SMap<TweakConfig>,
    pub default: TweakConfig,
}

impl ConfigTypes {
    /// Well-formed: both maps sorted, and every stored configuration
    /// well-formed.
    pub open spec fn wf(&self) -> bool {
        &&& self.paths.wf()
        &&& self.bundles.wf()
        &&& self.default.wf()
        &&& forall|key: Seq<char>|
            has_key(self.paths@, key) ==> (#[trigger] get_val(self.paths@, key)).wf()
        &&& forall|key: Seq<char>|
            has_key(self.bundles@, key) ==> (#[trigger] get_val(self.bundles@, key)).wf()
    }

    /// An empty tree with a freshly seeded default configuration.
    pub fn fresh(plugins: &Vec<String>) -> (r: ConfigTypes)
        ensures
            r.wf(),
            r.paths@.len() == 0,
            r.bundles@.len() == 0,
            is_fresh_for(r.default@, plugins@),
    {
        ConfigTypes {
            paths: SMap::new(),
            bundles: SMap::new(),
            default: TweakConfig::fresh(plugins),
        }
    }
}

/// The root of the persisted configuration: the per-target tree, the web
/// process master switch, and the per-plugin memory-compatibility overrides.
pub struct LibhookerConfig {
    pub tweak_configs: ConfigTypes,
    pub web_process_tweaks: bool,
    pub memory_compat_prefs: SMap<bool>,
}

impl LibhookerConfig {
    pub open spec fn wf(&self) -> bool {
        &&& self.tweak_configs.wf()
        &&& self.memory_compat_prefs.wf()
    }

    /// The schema default, substituted for an absent or unreadable file.
    pub fn fresh(plugins: &Vec<String>) -> (r: LibhookerConfig)
        ensures
            r.wf(),
            r.tweak_configs.paths@.len() == 0,
            r.tweak_configs.bundles@.len() == 0,
            is_fresh_for(r.tweak_configs.default@, plugins@),
            r.web_process_tweaks == true,
            r.memory_compat_prefs@.len() == 0,
    {
        LibhookerConfig {
            tweak_configs: ConfigTypes::fresh(plugins),
            web_process_tweaks: true,
            memory_compat_prefs: SMap::new(),
        }
    }
}

/// The compatibility mode stored for a plugin, or the default where no
/// override was stored.
pub open spec fn spec_compat_mode(prefs: Seq<(Seq<char>, bool)>, name: Seq<char>) -> bool {
    if has_key(prefs, name) {
        get_val(prefs, name)
    } else {
        COMPAT_LIBHOOKER
    }
}

/// Look up the effective memory-compatibility mode of a plugin.
pub fn compat_mode_of(cfg: &LibhookerConfig, name: &str) -> (r: bool)
    requires
        cfg.wf(),
    ensures
        r == spec_compat_mode(cfg.memory_compat_prefs@, name@),
{
    match cfg.memory_compat_prefs.get(name) {
        Some(v) => *v,
        None => COMPAT_LIBHOOKER,
    }
}

/// The mathematical reading of a [`Target`].
pub enum TargetV {
    Executable(Seq<char>),
    App(Seq<char>),
    Default,
}

/// The scoping unit a configuration applies to.
#[derive(Debug)]
pub enum Target {
    /// Configure the executable located at this absolute path.
    Executable(String),
    /// Configure the app with this bundle identifier.
    App(String),
    /// Configure the global default configuration.
    Default,
}

impl View for Target {
    type V = TargetV;

    open spec fn view(&self) -> TargetV {
        match self {
            Target::Executable(p) => TargetV::Executable(p@),
            Target::App(b) => TargetV::App(b@),
            Target::Default => TargetV::Default,
        }
    }
}

/// Whether the tree holds an entry for this target; the default slot always
/// exists.
pub open spec fn spec_slot_has(base: &ConfigTypes, t: TargetV) -> bool {
    match t {
        TargetV::Executable(p) => has_key(base.paths@, p),
        TargetV::App(b) => has_key(base.bundles@, b),
        TargetV::Default => true,
    }
}

/// The configuration stored for this target (meaningful when the slot
/// exists).
pub open spec fn spec_slot(base: &ConfigTypes, t: TargetV) -> TweakCfgV {
    match t {
        TargetV::Executable(p) => get_val(base.paths@, p)@,
        TargetV::App(b) => get_val(base.bundles@, b)@,
        TargetV::Default => base.default@,
    }
}

/// The well-known path of the system home-screen process.
pub open spec fn springboard_path() -> Seq<char> {
    "/System/Library/CoreServices/SpringBoard.app/SpringBoard"@
}

/// Whether a daemon path answers the query: its file-name component matches
/// the folded input, or the whole path equals the trimmed input exactly.
pub open spec fn daemon_matches(d: String, f: Seq<char>, t: Seq<char>) -> bool {
    fold_spec(file_name_spec(d@)) == f || d@ == t
}

/// The index of the first matching daemon path, or `-1`.
pub open spec fn first_daemon_match(daemons: Seq<String>, f: Seq<char>, t: Seq<char>) -> int
    decreases daemons.len(),
{
    if daemons.len() == 0 {
        -1
    } else if daemon_matches(daemons[0], f, t) {
        0
    } else {
        let r = first_daemon_match(daemons.subrange(1, daemons.len() as int), f, t);
        if r == -1 {
            -1
        } else {
            r + 1
        }
    }
}

pub proof fn lemma_first_daemon_match(daemons: Seq<String>, f: Seq<char>, t: Seq<char>)
    ensures
        -1 <= first_daemon_match(daemons, f, t) < daemons.len(),
        first_daemon_match(daemons, f, t) >= 0 ==> daemon_matches(
            daemons[first_daemon_match(daemons, f, t)],
            f,
            t,
        ),
        forall|j: int|
            0 <= j < first_daemon_match(daemons, f, t) ==> !daemon_matches(
                #[trigger] daemons[j],
                f,
                t,
            ),
        first_daemon_match(daemons, f, t) == -1 ==> forall|j: int|
            0 <= j < daemons.len() ==> !daemon_matches(#[trigger] daemons[j], f, t),
    decreases daemons.len(),
{
    if daemons.len() == 0 {
    } else if daemon_matches(daemons[0], f, t) {
    } else {
        let rest = daemons.subrange(1, daemons.len() as int);
        lemma_first_daemon_match(rest, f, t);
        assert forall|j: int| 0 <= j < first_daemon_match(daemons, f, t) implies !daemon_matches(
            #[trigger] daemons[j],
            f,
            t,
        ) by {
            if j > 0 {
                assert(rest[j - 1] == daemons[j]);
            }
        }
        if first_daemon_match(daemons, f, t) == -1 {
            assert forall|j: int| 0 <= j < daemons.len() implies !daemon_matches(
                #[trigger] daemons[j],
                f,
                t,
            ) by {
                if j > 0 {
                    assert(rest[j - 1] == daemons[j]);
                }
            }
        }
    }
}

/// Target resolution, strategies in order, the first that applies wins:
/// reserved keywords; an absolute path naming an existing regular file; app
/// resolution; daemon resolution; otherwise unresolvable.
pub open spec fn spec_resolve_target(
    input: Seq<char>,
    apps: Seq<App>,
    daemons: Seq<String>,
    input_is_file: bool,
) -> Option<TargetV> {
    let t = trim_spec(input);
    let f = fold_spec(input);
    if f == "default"@ {
        Some(TargetV::Default)
    } else if f == "springboard"@ {
        Some(TargetV::Executable(springboard_path()))
    } else if input_is_file && is_abs(t) {
        Some(TargetV::Executable(t))
    } else if first_app_match(apps, f) >= 0 {
        Some(TargetV::App(apps[first_app_match(apps, f)].identifier@))
    } else if first_daemon_match(daemons, f, t) >= 0 {
        Some(TargetV::Executable(daemons[first_daemon_match(daemons, f, t)]@))
    } else {
        None
    }
}

impl Target {
    /// This target's configuration: the stored one, or a fresh seeded one
    /// where the tree has no entry for the target yet.
    pub fn get_config(&self, base: &ConfigTypes, plugins: &Vec<String>) -> (r: TweakConfig)
        requires
            base.wf(),
        ensures
            r.wf(),
            spec_slot_has(base, self@) ==> r@ == spec_slot(base, self@),
            !spec_slot_has(base, self@) ==> is_fresh_for(r@, plugins@),
    {
        match self {
            Target::Executable(p) => match base.paths.get(p.as_str()) {
                Some(c) => c.duplicate(),
                None => TweakConfig::fresh(plugins),
            },
            Target::App(b) => match base.bundles.get(b.as_str()) {
                Some(c) => c.duplicate(),
                None => TweakConfig::fresh(plugins),
            },
            Target::Default => base.default.duplicate(),
        }
    }

    /// Store a configuration under this target's slot, leaving every other
    /// slot as it was.
    pub fn apply_config(&self, base: &mut ConfigTypes, tweak_config: TweakConfig)
        requires
            old(base).wf(),
            tweak_config.wf(),
        ensures
            final(base).wf(),
            spec_slot_has(final(base), self@),
            spec_slot(final(base), self@) == tweak_config@,
            forall|t: TargetV|
                t != self@ ==> #[trigger] spec_slot_has(final(base), t) == spec_slot_has(
                    old(base),
                    t,
                ),
            forall|t: TargetV|
                t != self@ && spec_slot_has(old(base), t) ==> #[trigger] spec_slot(final(base), t)
                    == spec_slot(old(base), t),
    {
        match self {
            Target::Executable(p) => {
                let key = p.clone();
                base.paths.insert(key, tweak_config);
                proof {
                    assert forall|key2: Seq<char>| has_key(base.paths@, key2) implies (
                    #[trigger] get_val(base.paths@, key2)).wf() by {
                        if key2 != p@ {
                            assert(has_key(old(base).paths@, key2));
                        }
                    }
                }
            },
            Target::App(b) => {
                let key = b.clone();
                base.bundles.insert(key, tweak_config);
                proof {
                    assert forall|key2: Seq<char>| has_key(base.bundles@, key2) implies (
                    #[trigger] get_val(base.bundles@, key2)).wf() by {
                        if key2 != b@ {
                            assert(has_key(old(base).bundles@, key2));
                        }
                    }
                }
            },
            Target::Default => {
                base.default = tweak_config;
            },
        }
    }

    /// Resolve a free-text target specifier against snapshots of the
    /// installed applications and the running daemons. `input_is_file` says
    /// whether the trimmed input, read as a filesystem path, names an
    /// existing regular file — a check only the caller, next to the
    /// filesystem, can make. `None` is the unresolvable-target condition.
    pub fn resolve(
        input: &str,
        apps: &Vec<App>,
        daemons: &Vec<String>,
        input_is_file: bool,
    ) -> (r: Option<Target>)
        ensures
            match r {
                Some(tg) => spec_resolve_target(input@, apps@, daemons@, input_is_file) == Some(
                    tg@,
                ),
                None => spec_resolve_target(input@, apps@, daemons@, input_is_file) is None,
            },
    {
        let t = trim_ascii(input);
        let folded = fold_chars(input);
        if chars_eq_str(&folded, "default") {
            return Some(Target::Default);
        }
        if chars_eq_str(&folded, "springboard") {
            let p = "/System/Library/CoreServices/SpringBoard.app/SpringBoard".to_owned();
            proof {
                assert(p@ == springboard_path());
            }
            return Some(Target::Executable(p));
        }
        if input_is_file && is_abs_exec(t) {
            return Some(Target::Executable(t.to_owned()));
        }
        match fix_app_name(input, apps) {
            Some(id) => {
                proof {
                    lemma_first_app_match(apps@, fold_spec(input@));
                }
                return Some(Target::App(id));
            },
            None => {},
        }
        let n: usize = daemons.len();
        let mut i: usize = 0;
        while i < n
            invariant
                0 <= i <= n,
                n == daemons@.len(),
                t@ == trim_spec(input@),
                folded@ == fold_spec(input@),
                fold_spec(input@) != "default"@,
                fold_spec(input@) != "springboard"@,
                !(input_is_file && is_abs(trim_spec(input@))),
                first_app_match(apps@, fold_spec(input@)) == -1,
                forall|j: int|
                    0 <= j < i ==> !daemon_matches(#[trigger] daemons@[j], folded@, t@),
            decreases n - i,
        {
            let fname = file_name_of(daemons[i].as_str());
            let dfold = fold_chars(fname);
            if chars_eq(&dfold, &folded) || str_eq(daemons[i].as_str(), t) {
                proof {
                    lemma_first_daemon_match(daemons@, folded@, t@);
                    assert(first_daemon_match(daemons@, folded@, t@) == i as int);
                }
                let path = daemons[i].clone();
                proof {
                    assert(path@ == daemons@[i as int]@);
                }
                return Some(Target::Executable(path));
            }
            i = i + 1;
        }
        proof {
            lemma_first_daemon_match(daemons@, folded@, t@);
        }
        None
    }

    /// The name a target is shown under: the file-name component of an
    /// executable's path (the full path where it has none), an app's display
    /// name, or a fixed phrase for the default configuration. For an app
    /// target the identifier must be a known one, as resolution produces.
    pub fn display_name(&self, apps: &Vec<App>) -> (r: String)
        requires
            self matches Target::App(b) ==> app_with_id(apps@, b@),
        ensures
            match self {
                Target::Executable(p) => r@ == if file_name_spec(p@).len() > 0 {
                    file_name_spec(p@)
                } else {
                    p@
                },
                Target::App(b) => r@ == apps@[first_id_match(apps@, b@)].name@,
                Target::Default => r@ == "libhooker defaults"@,
            },
    {
        match self {
            Target::Executable(p) => {
                let fname = file_name_of(p.as_str());
                if fname.unicode_len() > 0 {
                    fname.to_owned()
                } else {
                    p.clone()
                }
            },
            Target::App(b) => get_friendly_app_name(b.as_str(), apps),
            Target::Default => "libhooker defaults".to_owned(),
        }
    }

    /// The allow/deny mode stored for this target, or the default mode where
    /// no entry exists.
    pub fn get_tweak_mode(&self, base: &ConfigTypes) -> (r: TweakMode)
        requires
            base.wf(),
        ensures
            r == if spec_slot_has(base, self@) {
                spec_slot(base, self@).allow_or_deny
            } else {
                TweakMode::Deny
            },
    {
        match self {
            Target::Executable(p) => match base.paths.get(p.as_str()) {
                Some(c) => c.allow_or_deny,
                None => TweakMode::Deny,
            },
            Target::App(b) => match base.bundles.get(b.as_str()) {
                Some(c) => c.allow_or_deny,
                None => TweakMode::Deny,
            },
            Target::Default => base.default.allow_or_deny,
        }
    }
}

} // verus!
