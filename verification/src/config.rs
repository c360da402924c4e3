//! `baller.conf`: the defaults and the `[section]` / `key = value` format.

use vstd::prelude::*;
use vstd::string::*;

use crate::error::{BallError, ErrorView};
use crate::platform::{db_path_in, db_path_under, join_path, path_join, HostOs};
use crate::text::{
    chars_of, clone_chars, decimal, decimal_string, eq_str, find_char, first_index_of,
    lines, lines_of, lowercase_chars, spec_to_lowercase, split_chars, split_on,
    string_of, strip_both, strip_both_vec, sub_vec, trim, trimmed, trimmed_string,
};

verus! {

#[derive(Debug, Clone)]
pub struct RegistryConfig {
    pub source_order: Vec<String>,
    pub baller_registry_url: String,
    pub chocolatey_feed_url: String,
    /// The owner assumed for a bare GitHub name. Set by the program, not
    /// read from `baller.conf`, which refuses the key as unknown.
    pub github_default_owner: Option<String>,
    pub github_enabled: bool,
    pub baller_enabled: bool,
    pub chocolatey_enabled: bool,
    pub system_enabled: bool,
    /// Whether the cargo source is asked. Set by the program, not read from
    /// `baller.conf`, which refuses the key as unknown.
    pub cargo_enabled: bool,
}

#[derive(Debug, Clone, Copy, PartialEq, Eq, Structural)]
pub struct HooksConfig {
    pub pre_install: bool,
    pub post_install: bool,
    pub pre_eject: bool,
    pub post_eject: bool,
    pub pre_update: bool,
    pub post_update: bool,
}

/// Baller's settings. Paths are `/`-separated strings.
#[derive(Debug, Clone)]
pub struct BallerConfig {
    pub install_dir: String,
    pub db_path: String,
    pub cache_dir: String,
    pub hooks_dir: String,
    pub registry: RegistryConfig,
    pub hooks: HooksConfig,
}

pub struct RegistryConfigView {
    pub source_order: Seq<Seq<char>>,
    pub baller_registry_url: Seq<char>,
    pub chocolatey_feed_url: Seq<char>,
    pub github_default_owner: Option<Seq<char>>,
    pub github_enabled: bool,
    pub baller_enabled: bool,
    pub chocolatey_enabled: bool,
    pub system_enabled: bool,
    pub cargo_enabled: bool,
}

pub struct BallerConfigView {
    pub install_dir: Seq<char>,
    pub db_path: Seq<char>,
    pub cache_dir: Seq<char>,
    pub hooks_dir: Seq<char>,
    pub registry: RegistryConfigView,
    pub hooks: HooksConfig,
}

impl View for RegistryConfig {
    type V = RegistryConfigView;

    open spec fn view(&self) -> RegistryConfigView {
        RegistryConfigView {
            source_order: self.source_order.deep_view(),
            baller_registry_url: self.baller_registry_url@,
            chocolatey_feed_url: self.chocolatey_feed_url@,
            github_default_owner: self.github_default_owner.deep_view(),
            github_enabled: self.github_enabled,
            baller_enabled: self.baller_enabled,
            chocolatey_enabled: self.chocolatey_enabled,
            system_enabled: self.system_enabled,
            cargo_enabled: self.cargo_enabled,
        }
    }
}

impl View for BallerConfig {
    type V = BallerConfigView;

    open spec fn view(&self) -> BallerConfigView {
        BallerConfigView {
            install_dir: self.install_dir@,
            db_path: self.db_path@,
            cache_dir: self.cache_dir@,
            hooks_dir: self.hooks_dir@,
            registry: self.registry@,
            hooks: self.hooks,
        }
    }
}

pub open spec fn all_hooks(on: bool) -> HooksConfig {
    HooksConfig {
        pre_install: on,
        post_install: on,
        pre_eject: on,
        post_eject: on,
        pre_update: on,
        post_update: on,
    }
}

impl HooksConfig {
    /// Every hook enabled.
    pub fn enabled() -> (r: HooksConfig)
        ensures
            r == all_hooks(true),
    {
        HooksConfig {
            pre_install: true,
            post_install: true,
            pre_eject: true,
            post_eject: true,
            pre_update: true,
            post_update: true,
        }
    }

    /// Every hook disabled, as `--no-hooks` asks.
    pub fn disabled() -> (r: HooksConfig)
        ensures
            r == all_hooks(false),
    {
        HooksConfig {
            pre_install: false,
            post_install: false,
            pre_eject: false,
            post_eject: false,
            pre_update: false,
            post_update: false,
        }
    }
}

pub open spec fn default_source_names(os: HostOs) -> Seq<Seq<char>> {
    match os {
        HostOs::Linux => seq!["baller"@, "system"@, "cargo"@, "github"@],
        HostOs::Windows => seq!["baller"@, "chocolatey"@, "github"@],
    }
}

/// The configuration a platform starts from, before `baller.conf` is read.
pub open spec fn spec_default_config(
    os: HostOs,
    install_dir: Seq<char>,
    config_dir: Seq<char>,
) -> BallerConfigView {
    BallerConfigView {
        install_dir: install_dir,
        db_path: db_path_in(config_dir),
        cache_dir: path_join(config_dir, "cache"@),
        hooks_dir: path_join(config_dir, "hooks"@),
        registry: RegistryConfigView {
            source_order: default_source_names(os),
            baller_registry_url: "https://registry.baller.dev/api"@,
            chocolatey_feed_url: "https://community.chocolatey.org/api/v2"@,
            github_default_owner: None,
            github_enabled: true,
            baller_enabled: true,
            chocolatey_enabled: os == HostOs::Windows,
            system_enabled: os == HostOs::Linux,
            cargo_enabled: true,
        },
        hooks: all_hooks(true),
    }
}

fn strings_of(names: &[&str]) -> (r: Vec<String>)
    ensures
        r@.len() == names@.len(),
        forall|i: int| 0 <= i < names@.len() ==> #[trigger] r@[i]@ == names@[i]@,
{
    let mut r: Vec<String> = Vec::new();
    let mut i: usize = 0;
    while i < names.len()
        invariant
            i <= names@.len(),
            r@.len() == i,
            forall|k: int| 0 <= k < i ==> #[trigger] r@[k]@ == names@[k]@,
        decreases names@.len() - i,
    {
        r.push(String::from_str(names[i]));
        i = i + 1;
    }
    r
}

impl BallerConfig {
    /// The platform's defaults, with binaries in `install_dir` and the
    /// database, cache and hooks under `config_dir`.
    pub fn defaults(os: HostOs, install_dir: &str, config_dir: &str) -> (r: BallerConfig)
        ensures
            r@ == spec_default_config(os, install_dir@, config_dir@),
    {
        let source_order = match os {
            HostOs::Linux => strings_of(&["baller", "system", "cargo", "github"]),
            HostOs::Windows => strings_of(&["baller", "chocolatey", "github"]),
        };
        proof {
            assert(source_order.deep_view() =~= default_source_names(os));
        }
        BallerConfig {
            install_dir: String::from_str(install_dir),
            db_path: db_path_under(config_dir),
            cache_dir: join_path(config_dir, "cache"),
            hooks_dir: join_path(config_dir, "hooks"),
            registry: RegistryConfig {
                source_order,
                baller_registry_url: String::from_str("https://registry.baller.dev/api"),
                chocolatey_feed_url: String::from_str("https://community.chocolatey.org/api/v2"),
                github_default_owner: None,
                github_enabled: true,
                baller_enabled: true,
                chocolatey_enabled: os == HostOs::Windows,
                system_enabled: os == HostOs::Linux,
                cargo_enabled: true,
            },
            hooks: HooksConfig::enabled(),
        }
    }
}

// ---------------------------------------------------------------------------
// Booleans
// ---------------------------------------------------------------------------

/// The boolean a (lowercased) word spells, if any.
pub open spec fn bool_word(w: Seq<char>) -> Option<bool> {
    if w == "true"@ || w == "yes"@ || w == "1"@ || w == "on"@ {
        Some(true)
    } else if w == "false"@ || w == "no"@ || w == "0"@ || w == "off"@ {
        Some(false)
    } else {
        None
    }
}

/// A boolean setting; `shown_line` is the 1-based line reported on error.
pub open spec fn spec_bool_setting(value: Seq<char>, shown_line: nat) -> Result<bool, ErrorView> {
    match bool_word(spec_to_lowercase(value)) {
        Some(b) => Ok(b),
        None => Err(
            ErrorView::InvalidConfig(
                "invalid boolean '"@ + value + "' at line["@ + decimal(shown_line)
                    + "]: expected true/false, yes/no, 1/0, or on/off"@,
            ),
        ),
    }
}

pub fn bool_setting(value: &[char], shown_line: u64) -> (r: Result<bool, BallError>)
    ensures
        match r {
            Ok(b) => spec_bool_setting(value@, shown_line as nat) == Ok::<bool, ErrorView>(b),
            Err(e) => spec_bool_setting(value@, shown_line as nat) == Err::<bool, ErrorView>(e@),
        },
{
    let l = lowercase_chars(value);
    let w = l.as_slice();
    if eq_str(w, "true") || eq_str(w, "yes") || eq_str(w, "1") || eq_str(w, "on") {
        Ok(true)
    } else if eq_str(w, "false") || eq_str(w, "no") || eq_str(w, "0") || eq_str(w, "off") {
        Ok(false)
    } else {
        let mut m = String::from_str("invalid boolean '");
        let vs = string_of(value);
        m.append(vs.as_str());
        m.append("' at line[");
        let d = decimal_string(shown_line);
        m.append(d.as_str());
        m.append("]: expected true/false, yes/no, 1/0, or on/off");
        Err(BallError::InvalidConfig(m))
    }
}

/// `parse_bool` of `baller.conf`: `line` is the 0-based line index.
pub fn parse_bool(value: &str, line: usize) -> (r: Result<bool, BallError>)
    requires
        line < usize::MAX,
    ensures
        match r {
            Ok(b) => spec_bool_setting(value@, line as nat + 1) == Ok::<bool, ErrorView>(b),
            Err(e) => spec_bool_setting(value@, line as nat + 1) == Err::<bool, ErrorView>(e@),
        },
{
    let v = chars_of(value);
    bool_setting(v.as_slice(), line as u64 + 1)
}

// ---------------------------------------------------------------------------
// Lists
// ---------------------------------------------------------------------------

/// Every piece trimmed, the empty ones dropped.
pub open spec fn trimmed_nonempty(ps: Seq<Seq<char>>) -> Seq<Seq<char>>
    decreases ps.len(),
{
    if ps.len() == 0 {
        Seq::empty()
    } else {
        let pre = trimmed_nonempty(ps.drop_last());
        if trim(ps.last()).len() > 0 {
            pre.push(trim(ps.last()))
        } else {
            pre
        }
    }
}

/// A comma separated value, entries trimmed and empty ones dropped.
pub open spec fn spec_comma_list(v: Seq<char>) -> Seq<Seq<char>> {
    trimmed_nonempty(split_on(v, ','))
}

pub fn comma_list(v: &[char]) -> (r: Vec<String>)
    ensures
        r.deep_view() == spec_comma_list(v@),
{
    let pieces = split_chars(v, ',');
    let ghost ps = pieces.deep_view();
    let mut out: Vec<String> = Vec::new();
    let mut i: usize = 0;
    while i < pieces.len()
        invariant
            pieces.deep_view() == ps,
            i <= ps.len(),
            out.deep_view() == trimmed_nonempty(ps.subrange(0, i as int)),
        decreases ps.len() - i,
    {
        let ghost prev = out.deep_view();
        let t = trimmed_string(pieces[i].as_slice());
        proof {
            assert(pieces[i as int]@ == ps[i as int]);
            let cur = ps.subrange(0, i + 1);
            assert(cur.drop_last() =~= ps.subrange(0, i as int));
            assert(cur.last() == ps[i as int]);
        }
        if t.unicode_len() > 0 {
            out.push(t);
            proof {
                assert(out.deep_view() =~= prev.push(trim(ps[i as int])));
            }
        }
        i = i + 1;
    }
    proof {
        assert(ps.subrange(0, ps.len() as int) =~= ps);
    }
    out
}

// ---------------------------------------------------------------------------
// `baller.conf`
// ---------------------------------------------------------------------------

pub open spec fn config_err(n: nat, what: Seq<char>) -> ErrorView {
    ErrorView::InvalidConfig("invalid config at line["@ + decimal(n) + "]: "@ + what)
}

/// One `key = value` setting applied to `c`; `n` is the 1-based line.
pub open spec fn config_setting(
    c: BallerConfigView,
    n: nat,
    key: Seq<char>,
    value: Seq<char>,
) -> Result<BallerConfigView, ErrorView> {
    let r = c.registry;
    let h = c.hooks;
    if key == "install_dir"@ {
        Ok(BallerConfigView { install_dir: value, ..c })
    } else if key == "db_path"@ {
        Ok(BallerConfigView { db_path: value, ..c })
    } else if key == "cache_dir"@ {
        Ok(BallerConfigView { cache_dir: value, ..c })
    } else if key == "source_order"@ {
        Ok(
            BallerConfigView {
                registry: RegistryConfigView { source_order: spec_comma_list(value), ..r },
                ..c
            },
        )
    } else if key == "baller_registry_url"@ {
        Ok(BallerConfigView { registry: RegistryConfigView { baller_registry_url: value, ..r }, ..c })
    } else if key == "chocolatey_feed_url"@ {
        Ok(BallerConfigView { registry: RegistryConfigView { chocolatey_feed_url: value, ..r }, ..c })
    } else if key == "github_enabled"@ || key == "baller_enabled"@ || key == "chocolatey_enabled"@
        || key == "system_enabled"@ || key == "pre_install"@ || key
        == "post_install"@ || key == "pre_eject"@ || key == "post_eject"@ || key == "pre_update"@
        || key == "post_update"@ {
        match spec_bool_setting(value, n) {
            Err(e) => Err(e),
            Ok(b) => Ok(
                if key == "github_enabled"@ {
                    BallerConfigView { registry: RegistryConfigView { github_enabled: b, ..r }, ..c }
                } else if key == "baller_enabled"@ {
                    BallerConfigView { registry: RegistryConfigView { baller_enabled: b, ..r }, ..c }
                } else if key == "chocolatey_enabled"@ {
                    BallerConfigView {
                        registry: RegistryConfigView { chocolatey_enabled: b, ..r },
                        ..c
                    }
                } else if key == "system_enabled"@ {
                    BallerConfigView { registry: RegistryConfigView { system_enabled: b, ..r }, ..c }
                } else if key == "pre_install"@ {
                    BallerConfigView { hooks: HooksConfig { pre_install: b, ..h }, ..c }
                } else if key == "post_install"@ {
                    BallerConfigView { hooks: HooksConfig { post_install: b, ..h }, ..c }
                } else if key == "pre_eject"@ {
                    BallerConfigView { hooks: HooksConfig { pre_eject: b, ..h }, ..c }
                } else if key == "post_eject"@ {
                    BallerConfigView { hooks: HooksConfig { post_eject: b, ..h }, ..c }
                } else if key == "pre_update"@ {
                    BallerConfigView { hooks: HooksConfig { pre_update: b, ..h }, ..c }
                } else {
                    BallerConfigView { hooks: HooksConfig { post_update: b, ..h }, ..c }
                },
            ),
        }
    } else {
        Err(ErrorView::UnknownConfigEntry(n, key))
    }
}

/// One line of `baller.conf` applied to `c`; `n` is the 1-based line.
pub open spec fn config_line(c: BallerConfigView, n: nat, raw: Seq<char>) -> Result<
    BallerConfigView,
    ErrorView,
> {
    let t = trim(raw);
    if t.len() == 0 || t[0] == '#' || t[0] == ';' {
        Ok(c)
    } else if t[0] == '[' && t.last() == ']' {
        let section = trim(t.subrange(1, t.len() - 1));
        let low = spec_to_lowercase(section);
        if low == "baller"@ || low == "registry"@ || low == "hooks"@ {
            Ok(c)
        } else {
            Err(ErrorView::UnknownConfigEntry(n, section))
        }
    } else {
        match first_index_of(t, '=') {
            None => Err(config_err(n, "expected 'key = value'"@)),
            Some(k) => {
                let key = trim(t.subrange(0, k));
                let value = strip_both(trim(t.subrange(k + 1, t.len() as int)), '"', '"');
                if key.len() == 0 {
                    Err(config_err(n, "empty key"@))
                } else {
                    config_setting(c, n, key, value)
                }
            },
        }
    }
}

/// The lines of `ls` applied in order, stopping at the first error.
pub open spec fn config_lines(c: BallerConfigView, ls: Seq<Seq<char>>) -> Result<
    BallerConfigView,
    ErrorView,
>
    decreases ls.len(),
{
    if ls.len() == 0 {
        Ok(c)
    } else {
        match config_lines(c, ls.drop_last()) {
            Ok(c2) => config_line(c2, ls.len(), ls.last()),
            Err(e) => Err(e),
        }
    }
}

/// An error on a prefix of the lines is the error of all of them.
pub proof fn lemma_config_lines_err(c: BallerConfigView, ls: Seq<Seq<char>>, k: int)
    requires
        0 <= k <= ls.len(),
        config_lines(c, ls.subrange(0, k)) is Err,
    ensures
        config_lines(c, ls) == config_lines(c, ls.subrange(0, k)),
    decreases ls.len() - k,
{
    if k < ls.len() {
        let next = ls.subrange(0, k + 1);
        assert(next.drop_last() =~= ls.subrange(0, k));
        lemma_config_lines_err(c, ls, k + 1);
    } else {
        assert(ls.subrange(0, k) =~= ls);
    }
}

/// The section a header line names, trimmed; none for other lines.
pub open spec fn conf_section(raw: Seq<char>) -> Option<Seq<char>> {
    let t = trim(raw);
    if t.len() == 0 || t[0] == '#' || t[0] == ';' {
        None
    } else if t[0] == '[' && t.last() == ']' {
        Some(trim(t.subrange(1, t.len() - 1)))
    } else {
        None
    }
}

/// A line that is neither blank, a comment nor a header.
pub open spec fn conf_entry_line(raw: Seq<char>) -> bool {
    let t = trim(raw);
    !(t.len() == 0 || t[0] == '#' || t[0] == ';') && !(t[0] == '[' && t.last() == ']')
}

/// The key and (unquoted) value of an entry line with an `=`.
pub open spec fn conf_entry(raw: Seq<char>) -> Option<(Seq<char>, Seq<char>)> {
    let t = trim(raw);
    if !conf_entry_line(raw) {
        None
    } else {
        match first_index_of(t, '=') {
            None => None,
            Some(k) => Some(
                (trim(t.subrange(0, k)), strip_both(trim(t.subrange(k + 1, t.len() as int)), '"', '"')),
            ),
        }
    }
}

pub open spec fn is_bool_setting_key(key: Seq<char>) -> bool {
    key == "github_enabled"@ || key == "baller_enabled"@ || key == "chocolatey_enabled"@ || key
        == "system_enabled"@ || key == "pre_install"@ || key == "post_install"@ || key == "pre_eject"@
        || key == "post_eject"@ || key == "pre_update"@ || key == "post_update"@
}

/// How a line of `baller.conf` is refused: a header naming a section other
/// than `baller`, `registry` or `hooks` (in any case) as an unknown entry
/// carrying the section; a line without `=` or with an empty key as an
/// invalid line; a switch whose value is not a boolean word as an invalid
/// boolean.
pub proof fn law_config_line_errors(c: BallerConfigView, n: nat, raw: Seq<char>)
    ensures
        conf_section(raw) matches Some(sec) && !(spec_to_lowercase(sec) == "baller"@ || spec_to_lowercase(sec)
            == "registry"@ || spec_to_lowercase(sec) == "hooks"@) ==> config_line(c, n, raw) == Err::<
            BallerConfigView,
            ErrorView,
        >(ErrorView::UnknownConfigEntry(n, conf_section(raw)->Some_0)),
        conf_entry_line(raw) && first_index_of(trim(raw), '=') is None ==> config_line(c, n, raw) == Err::<
            BallerConfigView,
            ErrorView,
        >(config_err(n, "expected 'key = value'"@)),
        conf_entry(raw) matches Some(kv) && kv.0.len() == 0 ==> config_line(c, n, raw) == Err::<
            BallerConfigView,
            ErrorView,
        >(config_err(n, "empty key"@)),
        conf_entry(raw) matches Some(kv) && kv.0.len() > 0 && is_bool_setting_key(kv.0) && bool_word(
            spec_to_lowercase(kv.1),
        ) is None ==> config_line(c, n, raw) is Err && config_line(c, n, raw)->Err_0 is InvalidConfig,
{
    if conf_entry(raw) is Some {
        let kv = conf_entry(raw)->Some_0;
        reveal_strlit("install_dir");
        reveal_strlit("db_path");
        reveal_strlit("cache_dir");
        reveal_strlit("source_order");
        reveal_strlit("baller_registry_url");
        reveal_strlit("chocolatey_feed_url");
        reveal_strlit("github_enabled");
        reveal_strlit("baller_enabled");
        reveal_strlit("chocolatey_enabled");
        reveal_strlit("system_enabled");
        reveal_strlit("pre_install");
        reveal_strlit("post_install");
        reveal_strlit("pre_eject");
        reveal_strlit("post_eject");
        reveal_strlit("pre_update");
        reveal_strlit("post_update");
        if kv.0.len() > 0 && is_bool_setting_key(kv.0) && bool_word(spec_to_lowercase(kv.1)) is None {
            assert(config_line(c, n, raw) == config_setting(c, n, kv.0, kv.1));
            assert(kv.0[0] != "install_dir"@[0] || kv.0.len() != 11);
            assert(kv.0[0] != "cache_dir"@[0] || kv.0.len() != 9);
            assert(kv.0[0] != "source_order"@[0] || kv.0.len() != 12);
            assert(kv.0 != "install_dir"@ && kv.0 != "db_path"@ && kv.0 != "cache_dir"@ && kv.0
                != "source_order"@ && kv.0 != "baller_registry_url"@ && kv.0 != "chocolatey_feed_url"@);
            assert(spec_bool_setting(kv.1, n) is Err);
        }
    }
}

/// The first line of `baller.conf` that is refused decides the outcome:
/// after lines that all read, a refused line's error is the file's.
pub proof fn law_config_first_error(base: BallerConfigView, content: Seq<char>, k: int)
    requires
        0 <= k < lines(content).len(),
        config_lines(base, lines(content).subrange(0, k)) is Ok,
        config_line(config_lines(base, lines(content).subrange(0, k))->Ok_0, (k + 1) as nat, lines(content)[k])
            is Err,
    ensures
        spec_parse_config(base, content) == config_line(
            config_lines(base, lines(content).subrange(0, k))->Ok_0,
            (k + 1) as nat,
            lines(content)[k],
        ),
{
    let ls = lines(content);
    let next = ls.subrange(0, k + 1);
    assert(next.drop_last() =~= ls.subrange(0, k));
    assert(next.last() == ls[k]);
    lemma_config_lines_err(base, ls, k + 1);
}

/// `baller.conf` content applied over `base`.
pub open spec fn spec_parse_config(base: BallerConfigView, content: Seq<char>) -> Result<
    BallerConfigView,
    ErrorView,
> {
    config_lines(base, lines(content))
}

fn set_bool(cfg: &mut BallerConfig, key: &[char], b: bool)
    requires
        key@ == "github_enabled"@ || key@ == "baller_enabled"@ || key@ == "chocolatey_enabled"@
            || key@ == "system_enabled"@ || key@ == "pre_install"@
            || key@ == "post_install"@ || key@ == "pre_eject"@ || key@ == "post_eject"@ || key@
            == "pre_update"@ || key@ == "post_update"@,
    ensures
        ({
            let c = old(cfg)@;
            let r = c.registry;
            let h = c.hooks;
            let k = key@;
            final(cfg)@ == if k == "github_enabled"@ {
                BallerConfigView { registry: RegistryConfigView { github_enabled: b, ..r }, ..c }
            } else if k == "baller_enabled"@ {
                BallerConfigView { registry: RegistryConfigView { baller_enabled: b, ..r }, ..c }
            } else if k == "chocolatey_enabled"@ {
                BallerConfigView { registry: RegistryConfigView { chocolatey_enabled: b, ..r }, ..c }
            } else if k == "system_enabled"@ {
                BallerConfigView { registry: RegistryConfigView { system_enabled: b, ..r }, ..c }
            } else if k == "pre_install"@ {
                BallerConfigView { hooks: HooksConfig { pre_install: b, ..h }, ..c }
            } else if k == "post_install"@ {
                BallerConfigView { hooks: HooksConfig { post_install: b, ..h }, ..c }
            } else if k == "pre_eject"@ {
                BallerConfigView { hooks: HooksConfig { pre_eject: b, ..h }, ..c }
            } else if k == "post_eject"@ {
                BallerConfigView { hooks: HooksConfig { post_eject: b, ..h }, ..c }
            } else if k == "pre_update"@ {
                BallerConfigView { hooks: HooksConfig { pre_update: b, ..h }, ..c }
            } else {
                BallerConfigView { hooks: HooksConfig { post_update: b, ..h }, ..c }
            }
        }),
{
    if eq_str(key, "github_enabled") {
        cfg.registry.github_enabled = b;
    } else if eq_str(key, "baller_enabled") {
        cfg.registry.baller_enabled = b;
    } else if eq_str(key, "chocolatey_enabled") {
        cfg.registry.chocolatey_enabled = b;
    } else if eq_str(key, "system_enabled") {
        cfg.registry.system_enabled = b;
    } else if eq_str(key, "pre_install") {
        cfg.hooks.pre_install = b;
    } else if eq_str(key, "post_install") {
        cfg.hooks.post_install = b;
    } else if eq_str(key, "pre_eject") {
        cfg.hooks.pre_eject = b;
    } else if eq_str(key, "post_eject") {
        cfg.hooks.post_eject = b;
    } else if eq_str(key, "pre_update") {
        cfg.hooks.pre_update = b;
    } else {
        cfg.hooks.post_update = b;
    }
}

fn is_bool_key(key: &[char]) -> (r: bool)
    ensures
        r == (key@ == "github_enabled"@ || key@ == "baller_enabled"@ || key@
            == "chocolatey_enabled"@ || key@ == "system_enabled"@
            || key@ == "pre_install"@ || key@ == "post_install"@ || key@ == "pre_eject"@ || key@
            == "post_eject"@ || key@ == "pre_update"@ || key@ == "post_update"@),
{
    eq_str(key, "github_enabled") || eq_str(key, "baller_enabled") || eq_str(
        key,
        "chocolatey_enabled",
    ) || eq_str(key, "system_enabled") || eq_str(
        key,
        "pre_install",
    ) || eq_str(key, "post_install") || eq_str(key, "pre_eject") || eq_str(key, "post_eject")
        || eq_str(key, "pre_update") || eq_str(key, "post_update")
}

#[verifier::spinoff_prover]
#[verifier::rlimit(60)]
fn apply_setting(cfg: &mut BallerConfig, n: usize, key: &[char], value: &[char]) -> (r: Result<
    (),
    BallError,
>)
    ensures
        match r {
            Ok(_) => config_setting(old(cfg)@, n as nat, key@, value@) == Ok::<
                BallerConfigView,
                ErrorView,
            >(final(cfg)@),
            Err(e) => config_setting(old(cfg)@, n as nat, key@, value@) == Err::<
                BallerConfigView,
                ErrorView,
            >(e@),
        },
{
    if eq_str(key, "install_dir") {
        cfg.install_dir = string_of(value);
        Ok(())
    } else if eq_str(key, "db_path") {
        cfg.db_path = string_of(value);
        Ok(())
    } else if eq_str(key, "cache_dir") {
        cfg.cache_dir = string_of(value);
        Ok(())
    } else if eq_str(key, "source_order") {
        cfg.registry.source_order = comma_list(value);
        Ok(())
    } else if eq_str(key, "baller_registry_url") {
        cfg.registry.baller_registry_url = string_of(value);
        Ok(())
    } else if eq_str(key, "chocolatey_feed_url") {
        cfg.registry.chocolatey_feed_url = string_of(value);
        Ok(())
    } else if is_bool_key(key) {
        let b = bool_setting(value, n as u64)?;
        set_bool(cfg, key, b);
        Ok(())
    } else {
        Err(BallError::UnknownConfigEntry((n, string_of(key))))
    }
}

fn config_line_err(n: usize, what: &str) -> (r: BallError)
    ensures
        r@ == config_err(n as nat, what@),
{
    let mut m = String::from_str("invalid config at line[");
    let d = decimal_string(n as u64);
    m.append(d.as_str());
    m.append("]: ");
    m.append(what);
    BallError::InvalidConfig(m)
}

fn apply_line(cfg: &mut BallerConfig, n: usize, raw: &[char]) -> (r: Result<(), BallError>)
    ensures
        match r {
            Ok(_) => config_line(old(cfg)@, n as nat, raw@) == Ok::<BallerConfigView, ErrorView>(
                final(cfg)@,
            ),
            Err(e) => config_line(old(cfg)@, n as nat, raw@) == Err::<BallerConfigView, ErrorView>(
                e@,
            ),
        },
{
    let t = trimmed(raw);
    let tl = t.len();
    if tl == 0 || t[0] == '#' || t[0] == ';' {
        return Ok(());
    }
    if t[0] == '[' && t[tl - 1] == ']' {
        let inner = sub_vec(t.as_slice(), 1, tl - 1);
        let section = trimmed(inner.as_slice());
        let low = lowercase_chars(section.as_slice());
        if eq_str(low.as_slice(), "baller") || eq_str(low.as_slice(), "registry") || eq_str(
            low.as_slice(),
            "hooks",
        ) {
            return Ok(());
        }
        return Err(BallError::UnknownConfigEntry((n, string_of(section.as_slice()))));
    }
    match find_char(t.as_slice(), '=') {
        None => Err(config_line_err(n, "expected 'key = value'")),
        Some(k) => {
            let before = sub_vec(t.as_slice(), 0, k);
            let key = trimmed(before.as_slice());
            let after = sub_vec(t.as_slice(), k + 1, tl);
            let after_t = trimmed(after.as_slice());
            let value = strip_both_vec(after_t.as_slice(), '"', '"');
            if key.len() == 0 {
                Err(config_line_err(n, "empty key"))
            } else {
                apply_setting(cfg, n, key.as_slice(), value.as_slice())
            }
        },
    }
}

/// Applies `baller.conf` content over `base` (normally `BallerConfig::defaults`).
pub fn parse_config_content(base: BallerConfig, content: &str) -> (r: Result<
    BallerConfig,
    BallError,
>)
    ensures
        match r {
            Ok(c) => spec_parse_config(base@, content@) == Ok::<BallerConfigView, ErrorView>(c@),
            Err(e) => spec_parse_config(base@, content@) == Err::<BallerConfigView, ErrorView>(e@),
        },
{
    let v = chars_of(content);
    let ls = lines_of(v.as_slice());
    let ghost lv = ls.deep_view();
    let mut cfg = base;
    let mut i: usize = 0;
    proof {
        assert(lv.subrange(0, 0) =~= Seq::<Seq<char>>::empty());
    }
    while i < ls.len()
        invariant
            ls.deep_view() == lv,
            lv == lines(content@),
            i <= lv.len(),
            config_lines(base@, lv.subrange(0, i as int)) == Ok::<BallerConfigView, ErrorView>(
                cfg@,
            ),
        decreases lv.len() - i,
    {
        proof {
            let cur = lv.subrange(0, i + 1);
            assert(cur.drop_last() =~= lv.subrange(0, i as int));
            assert(cur.last() == ls[i as int]@);
        }
        match apply_line(&mut cfg, i + 1, ls[i].as_slice()) {
            Ok(_) => {},
            Err(e) => {
                proof {
                    lemma_config_lines_err(base@, lv, (i + 1) as int);
                }
                return Err(e);
            },
        }
        i = i + 1;
    }
    proof {
        assert(lv.subrange(0, lv.len() as int) =~= lv);
    }
    Ok(cfg)
}

} // verus!
