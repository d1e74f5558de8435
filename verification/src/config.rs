//! Configuration: the settings record, its defaults, the theme names, the
//! location of the configuration and state files, and the line-oriented
//! reader for standalone grouping rules.
use vstd::prelude::*;
use crate::sorted::{keys, pair_get, pairs, put_pair, strictly_sorted};
use crate::text::{
    ascii_lower, chars_of, eq_str, find_char_from, find_from, has_suffix, lemma_find_from_bounds,
    lower_chars, lower_seq, owned, push_str, skip_char, skip_char_back, string_of, sub_chars,
    trim, trim_chars, trim_end_char, trim_end_char_exec, trim_start_char, trim_start_char_exec,
};

verus! {

/// Directory name of this tool under the configuration and state roots.
pub const APP_DIR: &'static str = "hugdocker";

/// Directory name used by earlier releases, still read as a fallback.
pub const LEGACY_APP_DIR: &'static str = "dockerctl";

/// Directory name of the audit log and the event timeline under the state
/// root (`~/.local/state/dockerctl`).
pub const STATE_APP_DIR: &'static str = "dockerctl";

/// Everything the tool can be configured with.
#[derive(Debug, Clone, PartialEq, Eq)]
pub struct AppConfig {
    pub docker: DockerConfig,
    pub groups: GroupConfig,
    pub profiles: ProfileConfig,
    pub tui: TuiConfig,
    pub safety: SafetyConfig,
}

/// How to reach the Docker engine.
#[derive(Debug, Clone, Default, PartialEq, Eq)]
pub struct DockerConfig {
    pub context: Option<String>,
    pub host: Option<String>,
}

/// Rules that put standalone containers into named groups: by exact
/// container name, by container name prefix, and by image prefix. `exact`
/// keeps its keys strictly sorted, one entry per name.
#[derive(Debug, Clone, Default, PartialEq, Eq)]
pub struct GroupConfig {
    pub exact: Vec<(String, String)>,
    pub prefix: Vec<(String, String)>,
    pub image_prefix: Vec<(String, String)>,
}

/// Named profiles, each a list of project name patterns.
#[derive(Debug, Clone, Default, PartialEq, Eq)]
pub struct ProfileConfig {
    pub groups: Vec<(String, Vec<String>)>,
}

/// Settings of the full-screen dashboard.
#[derive(Debug, Clone, PartialEq, Eq)]
pub struct TuiConfig {
    pub refresh_ms: u64,
    pub log_tail: usize,
    pub default_filter: String,
    pub theme: String,
}

/// Colour themes of the dashboard.
#[derive(Debug, Clone, Copy, PartialEq, Eq)]
pub enum ThemeName {
    Cockpit,
    Industrial,
    Signal,
    Ocean,
}

/// Confirmation behaviour for destructive operations.
#[derive(Debug, Clone, PartialEq, Eq)]
pub struct SafetyConfig {
    pub typed_confirmation: bool,
    pub allow_yes_for_purge: bool,
}

impl Default for TuiConfig {
    fn default() -> (r: Self)
        ensures
            r.refresh_ms == 2000,
            r.log_tail == 200,
            r.default_filter@ == Seq::<char>::empty(),
            r.theme@ == "cockpit"@,
    {
        TuiConfig {
            refresh_ms: 2000,
            log_tail: 200,
            default_filter: String::new(),
            theme: owned("cockpit"),
        }
    }
}

impl Default for SafetyConfig {
    fn default() -> (r: Self)
        ensures
            r.typed_confirmation,
            !r.allow_yes_for_purge,
    {
        SafetyConfig { typed_confirmation: true, allow_yes_for_purge: false }
    }
}

/// The configuration in force when no file is read.
pub open spec fn is_default_config(c: AppConfig) -> bool {
    &&& c.docker.context is None
    &&& c.docker.host is None
    &&& c.groups.exact@.len() == 0
    &&& c.groups.prefix@.len() == 0
    &&& c.groups.image_prefix@.len() == 0
    &&& c.profiles.groups@.len() == 0
    &&& c.tui.refresh_ms == 2000
    &&& c.tui.log_tail == 200
    &&& c.tui.default_filter@ == Seq::<char>::empty()
    &&& c.tui.theme@ == "cockpit"@
    &&& c.safety.typed_confirmation
    &&& !c.safety.allow_yes_for_purge
}

pub fn default_group_config() -> (r: GroupConfig)
    ensures
        r.exact@.len() == 0,
        r.prefix@.len() == 0,
        r.image_prefix@.len() == 0,
{
    GroupConfig { exact: Vec::new(), prefix: Vec::new(), image_prefix: Vec::new() }
}

impl Default for AppConfig {
    fn default() -> (r: Self)
        ensures
            is_default_config(r),
    {
        AppConfig {
            docker: DockerConfig { context: None, host: None },
            groups: default_group_config(),
            profiles: ProfileConfig { groups: Vec::new() },
            tui: TuiConfig::default(),
            safety: SafetyConfig::default(),
        }
    }
}

// ---------------------------------------------------------------------------
// Themes
// ---------------------------------------------------------------------------

/// The theme a (trimmed, ASCII lower-cased) name selects; unknown names fall
/// back to the industrial theme.
pub open spec fn theme_for(name: Seq<char>) -> ThemeName {
    if name == "cockpit"@ {
        ThemeName::Cockpit
    } else if name == "signal"@ {
        ThemeName::Signal
    } else if name == "ocean"@ {
        ThemeName::Ocean
    } else {
        ThemeName::Industrial
    }
}

/// Reads a theme name, ignoring surrounding whitespace and ASCII case.
pub fn parse_theme(raw: &str) -> (r: ThemeName)
    ensures
        r == theme_for(lower_seq(trim(raw@))),
{
    let v = chars_of(raw);
    let t = trim_chars(&v);
    let name = lower_chars(&t);
    if eq_str(&name, "cockpit") {
        ThemeName::Cockpit
    } else if eq_str(&name, "signal") {
        ThemeName::Signal
    } else if eq_str(&name, "ocean") {
        ThemeName::Ocean
    } else {
        ThemeName::Industrial
    }
}

// ---------------------------------------------------------------------------
// File locations
// ---------------------------------------------------------------------------

/// `PathBuf::push` of a relative component: a separator is put between the
/// two parts unless the base is empty or already ends with one.
pub open spec fn path_join(base: Seq<char>, part: Seq<char>) -> Seq<char> {
    if base.len() == 0 || base.last() == '/' {
        base + part
    } else {
        base + seq!['/'] + part
    }
}

pub fn join_path(base: &String, part: &str) -> (r: String)
    ensures
        r@ == path_join(base@, part@),
{
    let b = chars_of(base.as_str());
    let mut r = string_of(&b);
    if b.len() == 0 || b[b.len() - 1] == '/' {
        push_str(&mut r, part);
    } else {
        push_str(&mut r, "/");
        push_str(&mut r, part);
        proof {
            reveal_strlit("/");
        }
    }
    r
}

/// Where the configuration of the given application directory lives, from
/// `$XDG_CONFIG_HOME`, else `$HOME/.config`.
pub open spec fn config_file_spec(
    xdg_config_home: Option<Seq<char>>,
    home: Option<Seq<char>>,
    app_dir: Seq<char>,
) -> Option<Seq<char>> {
    match xdg_config_home {
        Some(base) => Some(path_join(path_join(base, app_dir), "config.toml"@)),
        None => match home {
            Some(h) => Some(
                path_join(path_join(path_join(h, ".config"@), app_dir), "config.toml"@),
            ),
            None => None,
        },
    }
}

pub open spec fn opt_view(o: Option<String>) -> Option<Seq<char>> {
    match o {
        Some(s) => Some(s@),
        None => None,
    }
}

fn config_file_for(xdg_config_home: &Option<String>, home: &Option<String>, app_dir: &str) -> (r:
    Option<String>)
    ensures
        opt_view(r) == config_file_spec(opt_view(*xdg_config_home), opt_view(*home), app_dir@),
{
    match xdg_config_home {
        Some(base) => {
            let d = join_path(base, app_dir);
            Some(join_path(&d, "config.toml"))
        },
        None => match home {
            Some(h) => {
                let c = join_path(h, ".config");
                let d = join_path(&c, app_dir);
                Some(join_path(&d, "config.toml"))
            },
            None => None,
        },
    }
}

/// The configuration file, given `$XDG_CONFIG_HOME` and `$HOME`.
pub fn config_path(xdg_config_home: &Option<String>, home: &Option<String>) -> (r: Option<String>)
    ensures
        opt_view(r) == config_file_spec(opt_view(*xdg_config_home), opt_view(*home), APP_DIR@),
{
    config_file_for(xdg_config_home, home, APP_DIR)
}

/// The configuration file of earlier releases, given `$XDG_CONFIG_HOME` and
/// `$HOME`.
pub fn legacy_config_path(xdg_config_home: &Option<String>, home: &Option<String>) -> (r: Option<
    String,
>)
    ensures
        opt_view(r) == config_file_spec(
            opt_view(*xdg_config_home),
            opt_view(*home),
            LEGACY_APP_DIR@,
        ),
{
    config_file_for(xdg_config_home, home, LEGACY_APP_DIR)
}

/// The state directory, from `$XDG_STATE_HOME`, else `$HOME/.local/state`.
pub open spec fn state_dir_spec(xdg_state_home: Option<Seq<char>>, home: Option<Seq<char>>) -> Option<
    Seq<char>,
> {
    match xdg_state_home {
        Some(base) => Some(path_join(base, STATE_APP_DIR@)),
        None => match home {
            Some(h) => Some(path_join(path_join(h, ".local/state"@), STATE_APP_DIR@)),
            None => None,
        },
    }
}

/// The state directory, given `$XDG_STATE_HOME` and `$HOME`.
pub fn state_dir_path(xdg_state_home: &Option<String>, home: &Option<String>) -> (r: Option<String>)
    ensures
        opt_view(r) == state_dir_spec(opt_view(*xdg_state_home), opt_view(*home)),
{
    match xdg_state_home {
        Some(base) => Some(join_path(base, STATE_APP_DIR)),
        None => match home {
            Some(h) => {
                let s = join_path(h, ".local/state");
                Some(join_path(&s, STATE_APP_DIR))
            },
            None => None,
        },
    }
}

/// The audit log inside the state directory.
pub fn audit_log_path(state_dir: &Option<String>) -> (r: Option<String>)
    ensures
        opt_view(r) == match opt_view(*state_dir) {
            Some(d) => Some(path_join(d, "audit.log"@)),
            None => None,
        },
{
    match state_dir {
        Some(d) => Some(join_path(d, "audit.log")),
        None => None,
    }
}

/// The event timeline inside the state directory.
pub fn timeline_log_path(state_dir: &Option<String>) -> (r: Option<String>)
    ensures
        opt_view(r) == match opt_view(*state_dir) {
            Some(d) => Some(path_join(d, "timeline.jsonl"@)),
            None => None,
        },
{
    match state_dir {
        Some(d) => Some(join_path(d, "timeline.jsonl")),
        None => None,
    }
}

// ---------------------------------------------------------------------------
// Loading
// ---------------------------------------------------------------------------

/// The grouping rules that the line reader finds: none at all.
pub open spec fn no_group_rules(m: GroupModel) -> bool {
    m.exact.len() == 0 && m.prefix.len() == 0 && m.image_prefix.len() == 0
}

/// The configuration built from the text of a configuration file. When the
/// text is a valid settings document (`parsed`), its settings apply, with the
/// grouping rules of the `[group_exact]`, `[group_prefix]` and
/// `[group_image_prefix]` tables (and their other header forms) that the line
/// reader finds in the text; when it finds none, the document's own rules
/// stay. When the text is no settings document, the defaults apply with the
/// rules that the line reader finds.
pub open spec fn config_from_text_spec(text: Seq<char>, parsed: Option<AppConfig>, r: AppConfig) -> bool {
    match parsed {
        Some(c) => {
            &&& r.docker == c.docker
            &&& r.profiles == c.profiles
            &&& r.tui == c.tui
            &&& r.safety == c.safety
            &&& if no_group_rules(parse_group_spec(text)) {
                r.groups == c.groups
            } else {
                group_config_is(r.groups, parse_group_spec(text))
            }
        },
        None => {
            &&& r.docker.context is None
            &&& r.docker.host is None
            &&& group_config_is(r.groups, parse_group_spec(text))
            &&& r.profiles.groups@.len() == 0
            &&& r.tui.refresh_ms == 2000
            &&& r.tui.log_tail == 200
            &&& r.tui.default_filter@ == Seq::<char>::empty()
            &&& r.tui.theme@ == "cockpit"@
            &&& r.safety.typed_confirmation
            &&& !r.safety.allow_yes_for_purge
        },
    }
}

/// A rule list holds no rule exactly when the line reader found none.
proof fn lemma_no_group_rules(g: GroupConfig, m: GroupModel)
    requires
        group_config_is(g, m),
    ensures
        (g.exact@.len() == 0 && g.prefix@.len() == 0 && g.image_prefix@.len() == 0)
            <==> no_group_rules(m),
{
    assert(pairs(g.prefix@).len() == g.prefix@.len());
    assert(pairs(g.image_prefix@).len() == g.image_prefix@.len());
    let pg = pairs(g.exact@);
    if m.exact.len() > 0 {
        let k = m.exact[0].0;
        crate::sorted::lemma_pair_get_index(m.exact, k);
        assert(pair_get(m.exact, k) is Some);
        assert(pair_get(pg, k) is Some);
        assert(pg.len() > 0);
    }
    if g.exact@.len() > 0 {
        let k = pg[0].0;
        crate::sorted::lemma_pair_get_index(pg, k);
        assert(pair_get(pg, k) is Some);
        assert(pair_get(m.exact, k) is Some);
        assert(m.exact.len() > 0);
    }
}

/// Loads the configuration from the texts of the primary and the legacy
/// configuration file (each `None` when it could not be read). The primary
/// file wins; with no text the defaults apply. `parsed` is the settings
/// document that the chosen text holds, `None` when it holds none.
pub fn load_config(primary: Option<String>, legacy: Option<String>, parsed: Option<AppConfig>) -> (r:
    AppConfig)
    ensures
        primary is None && legacy is None ==> is_default_config(r),
        primary is Some ==> config_from_text_spec(primary->0@, parsed, r),
        primary is None && legacy is Some ==> config_from_text_spec(legacy->0@, parsed, r),
{
    let text = match primary {
        Some(t) => t,
        None => match legacy {
            Some(t) => t,
            None => {
                return AppConfig::default();
            },
        },
    };
    match parsed {
        Some(c) => {
            let g = parse_group_config(text.as_str());
            let none_found = g.exact.len() == 0 && g.prefix.len() == 0 && g.image_prefix.len() == 0;
            proof {
                lemma_no_group_rules(g, parse_group_spec(text@));
            }
            AppConfig {
                docker: c.docker,
                groups: if none_found {
                    c.groups
                } else {
                    g
                },
                profiles: c.profiles,
                tui: c.tui,
                safety: c.safety,
            }
        },
        None => {
            let d = AppConfig::default();
            AppConfig {
                docker: DockerConfig { context: None, host: None },
                groups: parse_group_config(text.as_str()),
                profiles: d.profiles,
                tui: d.tui,
                safety: d.safety,
            }
        },
    }
}

// ---------------------------------------------------------------------------
// The line reader for grouping rules
// ---------------------------------------------------------------------------

/// Which group table the lines being read belong to.
#[derive(Debug, Clone, Copy, PartialEq, Eq)]
pub enum GroupSection {
    Other,
    Exact,
    Prefix,
    ImagePrefix,
}

/// What the reader has collected: exact rules in the order read (a later
/// rule for the same name wins), and the two prefix tables in the order read.
pub struct GroupModel {
    pub exact: Seq<(Seq<char>, Seq<char>)>,
    pub prefix: Seq<(Seq<char>, Seq<char>)>,
    pub image_prefix: Seq<(Seq<char>, Seq<char>)>,
}

/// `r` holds exactly the rules of `m`.
pub open spec fn group_config_is(r: GroupConfig, m: GroupModel) -> bool {
    &&& strictly_sorted(keys(pairs(r.exact@)))
    &&& forall|k: Seq<char>| #[trigger] pair_get(pairs(r.exact@), k) == pair_get(m.exact, k)
    &&& pairs(r.prefix@) == m.prefix
    &&& pairs(r.image_prefix@) == m.image_prefix
}

/// A key or value of a rule: trimmed, with one pair of matching single or
/// double quotes removed, trimmed again.
pub open spec fn atom_spec(raw: Seq<char>) -> Seq<char> {
    let v = trim(raw);
    let quoted = v.len() >= 2 && ((v[0] == '"' && v.last() == '"') || (v[0] == '\''
        && v.last() == '\''));
    if quoted {
        trim(v.subrange(1, v.len() - 1))
    } else {
        trim(v)
    }
}

fn atom_chars(raw: &Vec<char>) -> (r: Vec<char>)
    ensures
        r@ == atom_spec(raw@),
{
    let v = trim_chars(raw);
    let n = v.len();
    if n >= 2 && ((v[0] == '"' && v[n - 1] == '"') || (v[0] == '\'' && v[n - 1] == '\'')) {
        let inner = sub_chars(&v, 1, n - 1);
        trim_chars(&inner)
    } else {
        trim_chars(&v)
    }
}

/// Reads one key or value of a grouping rule.
pub fn parse_config_atom(raw: &str) -> (r: String)
    ensures
        r@ == atom_spec(raw@),
{
    let v = chars_of(raw);
    let a = atom_chars(&v);
    string_of(&a)
}

/// The section a header name opens.
pub open spec fn section_for(name: Seq<char>) -> GroupSection {
    if name == "groups.exact"@ || name == "group_exact"@ || name == "standalone_group_exact"@ {
        GroupSection::Exact
    } else if name == "groups.prefix"@ || name == "group_prefix"@ || name
        == "standalone_group_prefix"@ {
        GroupSection::Prefix
    } else if name == "groups.image_prefix"@ || name == "group_image_prefix"@ || name
        == "standalone_group_image_prefix"@ {
        GroupSection::ImagePrefix
    } else {
        GroupSection::Other
    }
}

/// The name inside a `[...]` header line.
pub open spec fn header_name(line: Seq<char>) -> Seq<char> {
    lower_seq(trim(trim_end_char(trim_start_char(line, '['), ']')))
}

/// A line without its `#` comment, trimmed.
pub open spec fn content_of(raw: Seq<char>) -> Seq<char> {
    trim(raw.subrange(0, find_from(raw, '#', 0)))
}

/// One line read in the given state.
pub open spec fn read_line(st: (GroupSection, GroupModel), raw: Seq<char>) -> (
    GroupSection,
    GroupModel,
) {
    let line = content_of(raw);
    if line.len() == 0 {
        st
    } else if line[0] == '[' && line.last() == ']' {
        (section_for(header_name(line)), st.1)
    } else {
        let e = find_from(line, '=', 0);
        if e >= line.len() {
            st
        } else {
            let k = atom_spec(line.subrange(0, e));
            let v = atom_spec(line.subrange(e + 1, line.len() as int));
            if k.len() == 0 || v.len() == 0 {
                st
            } else {
                match st.0 {
                    GroupSection::Exact => (
                        st.0,
                        GroupModel {
                            exact: st.1.exact.push((k, v)),
                            prefix: st.1.prefix,
                            image_prefix: st.1.image_prefix,
                        },
                    ),
                    GroupSection::Prefix => (
                        st.0,
                        GroupModel {
                            exact: st.1.exact,
                            prefix: st.1.prefix.push((k, v)),
                            image_prefix: st.1.image_prefix,
                        },
                    ),
                    GroupSection::ImagePrefix => (
                        st.0,
                        GroupModel {
                            exact: st.1.exact,
                            prefix: st.1.prefix,
                            image_prefix: st.1.image_prefix.push((k, v)),
                        },
                    ),
                    GroupSection::Other => st,
                }
            }
        }
    }
}

/// The line that starts at `pos` and ends before the line break at `j`
/// (`str::lines`: a `\r` before the break is not part of the line).
pub open spec fn line_text(s: Seq<char>, pos: int, j: int) -> Seq<char> {
    let raw = s.subrange(pos, j);
    if j < s.len() && raw.len() > 0 && raw.last() == '\r' {
        raw.drop_last()
    } else {
        raw
    }
}

/// Reads the lines of `s` from `pos` on.
pub open spec fn read_from(s: Seq<char>, pos: int, st: (GroupSection, GroupModel)) -> (
    GroupSection,
    GroupModel,
)
    decreases s.len() + 1 - pos,
    via read_from_decreases
{
    if pos < 0 || pos >= s.len() {
        st
    } else {
        let j = find_from(s, '\n', pos);
        read_from(s, j + 1, read_line(st, line_text(s, pos, j)))
    }
}

#[via_fn]
proof fn read_from_decreases(s: Seq<char>, pos: int, st: (GroupSection, GroupModel)) {
    if 0 <= pos < s.len() {
        lemma_find_from_bounds(s, '\n', pos);
    }
}

/// The rules that the whole text holds.
pub open spec fn parse_group_spec(s: Seq<char>) -> GroupModel {
    read_from(
        s,
        0,
        (
            GroupSection::Other,
            GroupModel { exact: Seq::empty(), prefix: Seq::empty(), image_prefix: Seq::empty() },
        ),
    ).1
}

fn section_of_header(line: &Vec<char>) -> (r: GroupSection)
    ensures
        r == section_for(header_name(line@)),
{
    let a = trim_start_char_exec(line, '[');
    let b = trim_end_char_exec(&a, ']');
    let c = trim_chars(&b);
    let name = lower_chars(&c);
    if eq_str(&name, "groups.exact") || eq_str(&name, "group_exact") || eq_str(
        &name,
        "standalone_group_exact",
    ) {
        GroupSection::Exact
    } else if eq_str(&name, "groups.prefix") || eq_str(&name, "group_prefix") || eq_str(
        &name,
        "standalone_group_prefix",
    ) {
        GroupSection::Prefix
    } else if eq_str(&name, "groups.image_prefix") || eq_str(&name, "group_image_prefix")
        || eq_str(&name, "standalone_group_image_prefix") {
        GroupSection::ImagePrefix
    } else {
        GroupSection::Other
    }
}

/// `cfg` and `section` hold the reader state `st`.
pub open spec fn holds_state(section: GroupSection, cfg: GroupConfig, st: (GroupSection, GroupModel)) -> bool {
    section == st.0 && group_config_is(cfg, st.1)
}

fn read_one_line(section: &mut GroupSection, cfg: &mut GroupConfig, raw: &Vec<char>)
    requires
        strictly_sorted(keys(pairs(old(cfg).exact@))),
    ensures
        forall|st: (GroupSection, GroupModel)|
            holds_state(*old(section), *old(cfg), st) ==> holds_state(
                *final(section),
                *final(cfg),
                read_line(st, raw@),
            ),
        strictly_sorted(keys(pairs(final(cfg).exact@))),
{
    let hash = find_char_from(raw, '#', 0);
    let body = sub_chars(raw, 0, hash);
    let line = trim_chars(&body);
    let n = line.len();
    if n == 0 {
        return;
    }
    if line[0] == '[' && line[n - 1] == ']' {
        *section = section_of_header(&line);
        return;
    }
    let e = find_char_from(&line, '=', 0);
    if e >= n {
        return;
    }
    let left = sub_chars(&line, 0, e);
    let right = sub_chars(&line, e + 1, n);
    let k = atom_chars(&left);
    let v = atom_chars(&right);
    if k.len() == 0 || v.len() == 0 {
        return;
    }
    let ks = string_of(&k);
    let vs = string_of(&v);
    let ghost old_cfg = *cfg;
    match *section {
        GroupSection::Exact => {
            put_pair(&mut cfg.exact, ks, vs);
            proof {
                assert forall|st: (GroupSection, GroupModel)|
                    holds_state(*old(section), old_cfg, st) implies holds_state(
                    *section,
                    *cfg,
                    read_line(st, raw@),
                ) by {
                    let m = read_line(st, raw@).1;
                    assert(m.exact == st.1.exact.push((k@, v@)));
                    assert forall|key: Seq<char>|
                        #[trigger] pair_get(pairs(cfg.exact@), key) == pair_get(
                            m.exact,
                            key,
                        ) by {
                        assert(m.exact.drop_last() =~= st.1.exact);
                        assert(pair_get(pairs(old_cfg.exact@), key) == pair_get(st.1.exact, key));
                    }
                }
            }
        },
        GroupSection::Prefix => {
            cfg.prefix.push((ks, vs));
            proof {
                assert forall|st: (GroupSection, GroupModel)|
                    holds_state(*old(section), old_cfg, st) implies holds_state(
                    *section,
                    *cfg,
                    read_line(st, raw@),
                ) by {
                    assert(pairs(cfg.prefix@) =~= pairs(old_cfg.prefix@).push((k@, v@)));
                }
            }
        },
        GroupSection::ImagePrefix => {
            cfg.image_prefix.push((ks, vs));
            proof {
                assert forall|st: (GroupSection, GroupModel)|
                    holds_state(*old(section), old_cfg, st) implies holds_state(
                    *section,
                    *cfg,
                    read_line(st, raw@),
                ) by {
                    assert(pairs(cfg.image_prefix@) =~= pairs(old_cfg.image_prefix@).push(
                        (k@, v@),
                    ));
                }
            }
        },
        GroupSection::Other => {},
    }
}

/// Reads grouping rules from a configuration text, line by line: `[...]`
/// headers choose the table (`groups.exact`, `group_exact`,
/// `standalone_group_exact` and the `prefix` and `image_prefix` forms of
/// these), `key = value` lines add a rule to it, `#` starts a comment, and
/// everything else is skipped.
pub fn parse_group_config(content: &str) -> (r: GroupConfig)
    ensures
        group_config_is(r, parse_group_spec(content@)),
{
    let s = chars_of(content);
    let mut section = GroupSection::Other;
    let mut cfg = default_group_config();
    let ghost init = (
        GroupSection::Other,
        GroupModel { exact: Seq::empty(), prefix: Seq::empty(), image_prefix: Seq::empty() },
    );
    let ghost mut st = init;
    proof {
        assert(pairs(cfg.prefix@) =~= Seq::<(Seq<char>, Seq<char>)>::empty());
        assert(pairs(cfg.image_prefix@) =~= Seq::<(Seq<char>, Seq<char>)>::empty());
        assert(pairs(cfg.exact@) =~= Seq::<(Seq<char>, Seq<char>)>::empty());
    }
    let mut pos: usize = 0;
    while pos < s.len()
        invariant
            pos <= s.len(),
            s@ == content@,
            holds_state(section, cfg, st),
            strictly_sorted(keys(pairs(cfg.exact@))),
            read_from(s@, 0, init) == read_from(s@, pos as int, st),
        decreases s.len() - pos,
    {
        let j = find_char_from(&s, '\n', pos);
        let mut raw = sub_chars(&s, pos, j);
        if j < s.len() && raw.len() > 0 && raw[raw.len() - 1] == '\r' {
            raw.pop();
        }
        proof {
            assert(raw@ =~= line_text(s@, pos as int, j as int));
        }
        read_one_line(&mut section, &mut cfg, &raw);
        let ghost st_prev = st;
        proof {
            st = read_line(st, raw@);
            assert(read_from(s@, pos as int, st_prev) == read_from(s@, j + 1, st));
        }
        if j >= s.len() {
            pos = s.len();
        } else {
            pos = j + 1;
        }
    }
    cfg
}

} // verus!
