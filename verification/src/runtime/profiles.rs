//! Context options layered from `.sephera.toml`, a named profile and the
//! command line.
use vstd::prelude::*;
use vstd::string::*;
use crate::paths::{join_seq, join_strings, replace_char, replace_char_spec, views};
use crate::strset::strictly_sorted;
use crate::text::{chars_of, str_eq};
use super::budget::TokenBudgetValue;
use super::diff::{components, is_absolute, path_remainder, path_starts_with, path_components, strip_path_prefix};
use super::source::{SourceLocation, SourceRequest};

verus! {

/// The budget of a context pack when nothing sets one.
pub const DEFAULT_CONTEXT_BUDGET: u64 = 128_000;

/// The context section of a configuration file, as written.
#[derive(Debug, Clone, PartialEq, Eq, Default)]
pub struct ContextToml {
    pub ignore: Vec<String>,
    pub focus: Vec<String>,
    pub diff: Option<String>,
    pub budget: Option<TokenBudgetValue>,
    pub compress: Option<String>,
    pub format: Option<String>,
    pub output: Option<String>,
}

/// A named profile of a configuration file, as written.
#[derive(Debug, Clone, PartialEq, Eq, Default)]
pub struct ProfileToml {
    pub context: ContextToml,
}

/// A whole `.sephera.toml` file, as written; `profiles` in ascending order
/// of their names, each name once.
#[derive(Debug, Clone, PartialEq, Eq, Default)]
pub struct SepheraToml {
    pub context: ContextToml,
    pub profiles: Vec<(String, ProfileToml)>,
}

/// A checked context section: budget parsed, modes validated, paths made
/// relative to the configuration file's directory.
#[derive(Debug, Clone, PartialEq, Eq, Default)]
pub struct LoadedContextSection {
    pub ignore: Vec<String>,
    pub focus: Vec<String>,
    pub diff: Option<String>,
    pub budget: Option<u64>,
    pub compress: Option<String>,
    pub format: Option<String>,
    pub output: Option<String>,
}

/// A checked configuration file.
#[derive(Debug, Clone, PartialEq, Eq)]
pub struct LoadedSepheraConfig {
    pub source_path: String,
    pub context: LoadedContextSection,
    pub profiles: Vec<(String, LoadedContextSection)>,
}

/// The names of the profiles, in order.
pub open spec fn profile_names<T>(p: Seq<(String, T)>) -> Seq<Seq<char>> {
    p.map_values(|e: (String, T)| e.0@)
}

impl LoadedSepheraConfig {
    /// The profiles are in ascending order of their names, each name once.
    pub open spec fn well_formed(self) -> bool {
        strictly_sorted(profile_names(self.profiles@))
    }
}

/// The profiles found in a configuration file, for listing.
#[derive(Debug, Clone, PartialEq, Eq)]
pub struct AvailableContextProfiles {
    pub source_path: Option<String>,
    pub profiles: Vec<String>,
}

/// A compression mode name that the context command knows.
pub open spec fn known_compression(m: Seq<char>) -> bool {
    m == "signatures"@ || m == "skeleton"@ || m == "none"@
}

/// Checks a compression mode name.
pub fn validate_compression_mode(raw_mode: String) -> (r: Result<String, String>)
    ensures
        known_compression(raw_mode@) ==> r == Ok::<String, String>(raw_mode),
        !known_compression(raw_mode@) ==> (r matches Err(e) && e@ == "invalid compression mode `"@ + raw_mode@ + "`; expected `none`, `signatures`, or `skeleton`"@),
{
    if str_eq(raw_mode.as_str(), "signatures") || str_eq(raw_mode.as_str(), "skeleton") || str_eq(raw_mode.as_str(), "none") {
        Ok(raw_mode)
    } else {
        let mut m = "invalid compression mode `".to_owned();
        m.append(raw_mode.as_str());
        m.append("`; expected `none`, `signatures`, or `skeleton`");
        Err(m)
    }
}

/// A context format name that the context command knows.
pub open spec fn known_format(f: Seq<char>) -> bool {
    f == "markdown"@ || f == "json"@
}

/// Checks a context format name.
pub fn validate_context_format(raw_format: String) -> (r: Result<String, String>)
    ensures
        known_format(raw_format@) ==> r == Ok::<String, String>(raw_format),
        !known_format(raw_format@) ==> (r matches Err(e) && e@ == "invalid context format `"@ + raw_format@ + "`; expected `markdown` or `json`"@),
{
    if str_eq(raw_format.as_str(), "markdown") || str_eq(raw_format.as_str(), "json") {
        Ok(raw_format)
    } else {
        let mut m = "invalid context format `".to_owned();
        m.append(raw_format.as_str());
        m.append("`; expected `markdown` or `json`");
        Err(m)
    }
}

/// `path` appended to the directory `base`, as `Path::join` does for a
/// relative `path`.
pub open spec fn join_path(base: Seq<char>, path: Seq<char>) -> Seq<char> {
    if base.len() == 0 {
        path
    } else if base.last() == '/' {
        base + path
    } else {
        base + "/"@ + path
    }
}

/// `path` read relative to `base_directory`, unless it is absolute.
pub open spec fn resolved_path(base_directory: Seq<char>, path: Seq<char>) -> Seq<char> {
    if is_absolute(path) { path } else { join_path(base_directory, path) }
}

/// `path` read relative to `base_directory`, unless it is absolute.
pub fn resolve_relative_path(base_directory: &str, path: &str) -> (r: String)
    ensures
        r@ == resolved_path(base_directory@, path@),
{
    let pc = chars_of(path);
    if pc.len() > 0 && pc[0] == '/' {
        return path.to_owned();
    }
    let bc = chars_of(base_directory);
    if bc.len() == 0 {
        return path.to_owned();
    }
    let mut r = base_directory.to_owned();
    if bc[bc.len() - 1] != '/' {
        r.append("/");
    }
    r.append(path);
    r
}

/// Each of `paths` read relative to `base_directory`.
pub fn resolve_relative_paths(base_directory: &str, paths: &Vec<String>) -> (r: Vec<String>)
    ensures
        r@.len() == paths@.len(),
        forall|i: int| 0 <= i < paths@.len() ==> #[trigger] r@[i]@ == resolved_path(base_directory@, paths@[i]@),
{
    let mut r: Vec<String> = Vec::new();
    let mut i: usize = 0;
    while i < paths.len()
        invariant
            i <= paths@.len(),
            r@.len() == i,
            forall|j: int| 0 <= j < i ==> #[trigger] r@[j]@ == resolved_path(base_directory@, paths@[j]@),
        decreases paths@.len() - i,
    {
        r.push(resolve_relative_path(base_directory, paths[i].as_str()));
        i = i + 1;
    }
    r
}

/// The directory that holds the file at `path`: its components but the
/// last, or `.` where it has no parent.
pub open spec fn parent_directory(path: Seq<char>) -> Seq<char> {
    let c = components(path);
    if c.len() == 0 {
        "."@
    } else if is_absolute(path) {
        "/"@ + join_seq(c.drop_last(), "/"@)
    } else {
        join_seq(c.drop_last(), "/"@)
    }
}

/// The directory that holds the configuration file at `config_path`.
pub fn config_directory(config_path: &str) -> (r: String)
    ensures
        r@ == parent_directory(config_path@),
{
    let c = path_components(config_path);
    if c.len() == 0 {
        return ".".to_owned();
    }
    let mut head: Vec<String> = Vec::new();
    let mut i: usize = 0;
    let last = c.len() - 1;
    while i < last
        invariant
            c@.len() >= 1,
            last == c@.len() - 1,
            i <= last,
            views(head@) == views(c@).take(i as int),
        decreases c@.len() - i,
    {
        let ghost before = views(head@);
        head.push(c[i].as_str().to_owned());
        assert(views(head@) =~= before.push(views(c@)[i as int]));
        assert(views(head@) =~= views(c@).take(i + 1));
        i = i + 1;
    }
    assert(views(c@).take(i as int) =~= views(c@).drop_last());
    let joined = join_strings(&head, "/");
    let pc = chars_of(config_path);
    if pc.len() > 0 && pc[0] == '/' {
        let mut r = "/".to_owned();
        r.append(joined.as_str());
        r
    } else {
        joined
    }
}

/// The error for a field of a configuration section.
pub open spec fn field_error(config_path: Seq<char>, prefix: Seq<char>, field: Seq<char>, inner: Seq<char>) -> Seq<char> {
    "failed to parse `"@ + prefix + "."@ + field + "` in `"@ + config_path + "`: "@ + inner
}

/// What is wrong with a context section, if anything: its budget first,
/// then its compression mode, then its format.
pub open spec fn section_error(config_path: Seq<char>, prefix: Seq<char>, ctx: ContextToml) -> Option<Seq<char>> {
    let budget_error = match ctx.budget {
        Some(b) => match b.spec_parse() {
            Err(e) => Some(e),
            Ok(_) => None,
        },
        None => None,
    };
    if budget_error is Some {
        Some(field_error(config_path, prefix, "budget"@, budget_error->0))
    } else if ctx.compress matches Some(c) && !known_compression(c@) {
        Some(field_error(config_path, prefix, "compress"@,
            "invalid compression mode `"@ + ctx.compress->0@ + "`; expected `none`, `signatures`, or `skeleton`"@))
    } else if ctx.format matches Some(f) && !known_format(f@) {
        Some(field_error(config_path, prefix, "format"@,
            "invalid context format `"@ + ctx.format->0@ + "`; expected `markdown` or `json`"@))
    } else {
        None
    }
}

/// `sec` is `ctx` checked, with its paths read relative to `dir`.
pub open spec fn converted_section(dir: Seq<char>, ctx: ContextToml, sec: LoadedContextSection) -> bool {
    &&& sec.ignore == ctx.ignore
    &&& sec.focus@.len() == ctx.focus@.len()
    &&& forall|i: int| 0 <= i < ctx.focus@.len() ==> #[trigger] sec.focus@[i]@ == resolved_path(dir, ctx.focus@[i]@)
    &&& sec.diff == ctx.diff
    &&& match ctx.budget {
        Some(b) => sec.budget is Some && b.spec_parse() == Ok::<nat, Seq<char>>(sec.budget->0 as nat),
        None => sec.budget is None,
    }
    &&& sec.compress == ctx.compress
    &&& sec.format == ctx.format
    &&& match ctx.output {
        Some(o) => sec.output is Some && sec.output->0@ == resolved_path(dir, o@),
        None => sec.output is None,
    }
}

fn field_error_text(config_path: &str, prefix: &str, field: &str, inner: &str) -> (r: String)
    ensures
        r@ == field_error(config_path@, prefix@, field@, inner@),
{
    let mut m = "failed to parse `".to_owned();
    m.append(prefix);
    m.append(".");
    m.append(field);
    m.append("` in `");
    m.append(config_path);
    m.append("`: ");
    m.append(inner);
    m
}

/// Checks a context section of the configuration file at `config_path`,
/// whose directory is `config_directory`; `field_prefix` names the section
/// in errors.
pub fn convert_context_section(
    config_path: &str,
    config_directory: &str,
    field_prefix: &str,
    context: ContextToml,
) -> (r: Result<LoadedContextSection, String>)
    ensures
        match section_error(config_path@, field_prefix@, context) {
            Some(e) => r matches Err(m) && m@ == e,
            None => r matches Ok(sec) && converted_section(config_directory@, context, sec),
        },
{
    proof {
        reveal_strlit("budget");
        reveal_strlit("compress");
        reveal_strlit("format");
    }
    let ghost ctx = context;
    let budget = match context.budget {
        Some(b) => match b.parse() {
            Ok(v) => Some(v),
            Err(e) => {
                return Err(field_error_text(config_path, field_prefix, "budget", e.as_str()));
            },
        },
        None => None,
    };
    let compress = match context.compress {
        Some(c) => match validate_compression_mode(c) {
            Ok(c) => Some(c),
            Err(e) => {
                return Err(field_error_text(config_path, field_prefix, "compress", e.as_str()));
            },
        },
        None => None,
    };
    let format = match context.format {
        Some(f) => match validate_context_format(f) {
            Ok(f) => Some(f),
            Err(e) => {
                return Err(field_error_text(config_path, field_prefix, "format", e.as_str()));
            },
        },
        None => None,
    };
    let focus = resolve_relative_paths(config_directory, &context.focus);
    let output = match &context.output {
        Some(o) => Some(resolve_relative_path(config_directory, o.as_str())),
        None => None,
    };
    let sec = LoadedContextSection {
        ignore: context.ignore,
        focus,
        diff: context.diff,
        budget,
        compress,
        format,
        output,
    };
    assert(converted_section(config_directory@, ctx, sec));
    Ok(sec)
}

/// The field prefix of a named profile's context section.
pub open spec fn profile_prefix(name: Seq<char>) -> Seq<char> {
    "profiles."@ + name + ".context"@
}

/// The `i`th profile section has nothing wrong with it.
pub open spec fn profile_ok(config_path: Seq<char>, profiles: Seq<(String, ProfileToml)>, i: int) -> bool {
    section_error(config_path, profile_prefix(profiles[i].0@), profiles[i].1.context) is None
}

/// The `i`th profile section has the error `e`.
pub open spec fn profile_error_is(config_path: Seq<char>, profiles: Seq<(String, ProfileToml)>, i: int, e: Seq<char>) -> bool {
    section_error(config_path, profile_prefix(profiles[i].0@), profiles[i].1.context) == Some(e)
}

/// Checks a whole configuration file read from `config_path`.
pub fn convert_context_config(config_path: &str, config: SepheraToml) -> (r: Result<LoadedSepheraConfig, String>)
    requires
        strictly_sorted(profile_names(config.profiles@)),
    ensures
        ({
            let dir = parent_directory(config_path@);
            match r {
                Ok(c) => {
                    &&& c.source_path@ == config_path@
                    &&& c.well_formed()
                    &&& section_error(config_path@, "context"@, config.context) is None
                    &&& converted_section(dir, config.context, c.context)
                    &&& profile_names(c.profiles@) == profile_names(config.profiles@)
                    &&& forall|i: int| 0 <= i < config.profiles@.len() ==> #[trigger] profile_ok(config_path@, config.profiles@, i)
                        && converted_section(dir, config.profiles@[i].1.context, c.profiles@[i].1)
                },
                Err(e) => {
                    ||| section_error(config_path@, "context"@, config.context) == Some(e@)
                    ||| (section_error(config_path@, "context"@, config.context) is None
                        && exists|i: int| 0 <= i < config.profiles@.len()
                            && (forall|j: int| 0 <= j < i ==> #[trigger] profile_ok(config_path@, config.profiles@, j))
                            && #[trigger] profile_error_is(config_path@, config.profiles@, i, e@))
                },
            }
        }),
{
    proof { reveal_strlit("context"); }
    let dir = config_directory(config_path);
    let ghost cfg = config;
    let context = convert_context_section(config_path, dir.as_str(), "context", config.context);
    let context = match context {
        Ok(c) => c,
        Err(e) => { return Err(e); },
    };
    let n = config.profiles.len();
    let mut rest = config.profiles;
    let mut profiles: Vec<(String, LoadedContextSection)> = Vec::new();
    let mut i: usize = 0;
    while i < n
        invariant
            i <= n,
            n == cfg.profiles@.len(),
            cfg == config,
            rest@ == cfg.profiles@.skip(i as int),
            dir@ == parent_directory(config_path@),
            section_error(config_path@, "context"@, cfg.context) is None,
            converted_section(dir@, cfg.context, context),
            profiles@.len() == i,
            profile_names(profiles@) == profile_names(cfg.profiles@).take(i as int),
            forall|j: int| 0 <= j < i ==> #[trigger] profile_ok(config_path@, cfg.profiles@, j)
                && converted_section(dir@, cfg.profiles@[j].1.context, profiles@[j].1),
        decreases n - i,
    {
        assert(rest@[0] == cfg.profiles@[i as int]);
        let (name, profile) = rest.remove(0);
        assert(rest@ =~= cfg.profiles@.skip(i + 1));
        let mut prefix = "profiles.".to_owned();
        prefix.append(name.as_str());
        prefix.append(".context");
        assert(prefix@ == profile_prefix(cfg.profiles@[i as int].0@));
        let sec = match convert_context_section(config_path, dir.as_str(), prefix.as_str(), profile.context) {
            Ok(sec) => sec,
            Err(e) => {
                assert(profile_error_is(config_path@, cfg.profiles@, i as int, e@));
                assert(exists|k: int| 0 <= k < cfg.profiles@.len()
                    && (forall|j: int| 0 <= j < k ==> #[trigger] profile_ok(config_path@, cfg.profiles@, j))
                    && #[trigger] profile_error_is(config_path@, cfg.profiles@, k, e@));
                return Err(e);
            },
        };
        let ghost before = profile_names(profiles@);
        let ghost old_profiles = profiles@;
        profiles.push((name, sec));
        assert(profile_ok(config_path@, cfg.profiles@, i as int));
        assert(forall|j: int| 0 <= j < i ==> profiles@[j] == old_profiles[j]);
        assert(profile_names(profiles@) =~= before.push(cfg.profiles@[i as int].0@));
        assert(profile_names(cfg.profiles@).take(i + 1) =~= profile_names(cfg.profiles@).take(i as int).push(cfg.profiles@[i as int].0@));
        i = i + 1;
    }
    assert(profile_names(cfg.profiles@).take(n as int) =~= profile_names(cfg.profiles@));
    assert(profile_names(profiles@) == profile_names(cfg.profiles@));
    Ok(LoadedSepheraConfig { source_path: config_path.to_owned(), context, profiles })
}

/// The tail of the error for an unknown profile: the profiles there are.
pub open spec fn comma_list(names: Seq<Seq<char>>) -> Seq<char> {
    if names.len() == 0 {
        "; no profiles are defined"@
    } else {
        "; available profiles: "@ + join_seq(names, ", "@)
    }
}

/// The tail of the error for an unknown profile.
pub fn comma_separated_profiles(profile_names: &Vec<String>) -> (r: String)
    ensures
        r@ == comma_list(views(profile_names@)),
{
    if profile_names.len() == 0 {
        "; no profiles are defined".to_owned()
    } else {
        let mut r = "; available profiles: ".to_owned();
        r.append(join_strings(profile_names, ", ").as_str());
        r
    }
}

/// How the path of a configuration file is shown: for a remote
/// repository, under the repository's display root.
pub open spec fn shown_config_path(config_path: Seq<char>, source: SourceLocation) -> Seq<char> {
    match source.display_repo_root {
        Some(d) => if path_starts_with(config_path, source.repo_root@) {
            let rel = path_remainder(config_path, source.repo_root@);
            if rel.len() == 0 { d@ } else { d@ + "/"@ + replace_char_spec(rel, '\\', '/') }
        } else {
            config_path
        },
        None => config_path,
    }
}

/// How the path of a configuration file is shown.
pub fn display_config_path(config_path: &str, source: &SourceLocation) -> (r: String)
    ensures
        r@ == shown_config_path(config_path@, *source),
{
    match &source.display_repo_root {
        Some(d) => match strip_path_prefix(config_path, source.repo_root.as_str()) {
            Some(rel) => {
                if rel.as_str().is_empty() {
                    d.as_str().to_owned()
                } else {
                    let mut r = d.as_str().to_owned();
                    r.append("/");
                    r.append(replace_char(rel.as_str(), '\\', '/').as_str());
                    r
                }
            },
            None => config_path.to_owned(),
        },
        None => config_path.to_owned(),
    }
}

/// The position of the profile called `name`, if there is one.
pub open spec fn find_profile(ps: Seq<(String, LoadedContextSection)>, name: Seq<char>) -> Option<int>
    decreases ps.len(),
{
    if ps.len() == 0 {
        None
    } else if ps[0].0@ == name {
        Some(0)
    } else {
        match find_profile(ps.drop_first(), name) {
            Some(i) => Some(i + 1),
            None => None,
        }
    }
}

proof fn lemma_find_profile(ps: Seq<(String, LoadedContextSection)>, name: Seq<char>)
    ensures
        find_profile(ps, name) matches Some(i) ==> 0 <= i < ps.len() && ps[i].0@ == name
            && forall|j: int| 0 <= j < i ==> ps[j].0@ != name,
        find_profile(ps, name) is None ==> forall|j: int| 0 <= j < ps.len() ==> ps[j].0@ != name,
    decreases ps.len(),
{
    if ps.len() > 0 {
        lemma_find_profile(ps.drop_first(), name);
        assert(forall|j: int| 0 < j < ps.len() ==> ps[j] == ps.drop_first()[j - 1]);
    }
}

/// Why the profile asked for cannot be used, if it cannot.
pub open spec fn profile_error(profile: Option<String>, config: Option<LoadedSepheraConfig>, source: SourceLocation) -> Option<Seq<char>> {
    match profile {
        None => None,
        Some(name) => match config {
            None => Some("profile `"@ + name@ + "` was requested, but no `.sephera.toml` file was found"@),
            Some(c) => if find_profile(c.profiles@, name@) is None {
                Some("profile `"@ + name@ + "` was not found in `"@ + shown_config_path(c.source_path@, source) + "`"@
                    + comma_list(profile_names(c.profiles@)))
            } else {
                None
            },
        },
    }
}

/// The profile section asked for, if there is one.
pub open spec fn chosen_section(profile: Option<String>, config: Option<LoadedSepheraConfig>) -> Option<LoadedContextSection> {
    match (profile, config) {
        (Some(name), Some(c)) => match find_profile(c.profiles@, name@) {
            Some(i) => Some(c.profiles@[i].1),
            None => None,
        },
        _ => None,
    }
}

fn profile_name_list(profiles: &Vec<(String, LoadedContextSection)>) -> (r: Vec<String>)
    ensures
        views(r@) == profile_names(profiles@),
{
    let mut r: Vec<String> = Vec::new();
    let mut i: usize = 0;
    while i < profiles.len()
        invariant
            i <= profiles@.len(),
            views(r@) == profile_names(profiles@).take(i as int),
        decreases profiles@.len() - i,
    {
        let ghost before = views(r@);
        r.push(profiles[i].0.clone());
        assert(views(r@) =~= before.push(profiles@[i as int].0@));
        assert(profile_names(profiles@).take(i + 1) =~= profile_names(profiles@).take(i as int).push(profiles@[i as int].0@));
        i = i + 1;
    }
    assert(profile_names(profiles@).take(i as int) =~= profile_names(profiles@));
    r
}

/// The position of the profile asked for, or why it cannot be used.
pub fn resolve_selected_profile(
    profile: &Option<String>,
    config: &Option<LoadedSepheraConfig>,
    source: &SourceLocation,
) -> (r: Result<Option<usize>, String>)
    ensures
        match profile_error(*profile, *config, *source) {
            Some(e) => r matches Err(m) && m@ == e,
            None => r matches Ok(sel) && match (*profile, *config) {
                (Some(name), Some(c)) => sel matches Some(i) && find_profile(c.profiles@, name@) == Some(i as int),
                _ => sel is None,
            },
        },
{
    let name = match profile {
        None => { return Ok(None); },
        Some(name) => name,
    };
    let c = match config {
        None => {
            let mut m = "profile `".to_owned();
            m.append(name.as_str());
            m.append("` was requested, but no `.sephera.toml` file was found");
            return Err(m);
        },
        Some(c) => c,
    };
    let mut i: usize = 0;
    assert(c.profiles@.skip(0) =~= c.profiles@);
    while i < c.profiles.len()
        invariant
            i <= c.profiles@.len(),
            *config == Some(*c),
            *profile == Some(*name),
            find_profile(c.profiles@, name@) == (match find_profile(c.profiles@.skip(i as int), name@) {
                Some(k) => Some(k + i),
                None => None::<int>,
            }),
        decreases c.profiles@.len() - i,
    {
        assert(c.profiles@.skip(i as int)[0] == c.profiles@[i as int]);
        assert(c.profiles@.skip(i as int).drop_first() =~= c.profiles@.skip(i + 1));
        if str_eq(c.profiles[i].0.as_str(), name.as_str()) {
            assert(find_profile(c.profiles@.skip(i as int), name@) == Some(0int));
            return Ok(Some(i));
        }
        i = i + 1;
    }
    assert(c.profiles@.skip(i as int) =~= Seq::<(String, LoadedContextSection)>::empty());
    let mut m = "profile `".to_owned();
    m.append(name.as_str());
    m.append("` was not found in `");
    m.append(display_config_path(c.source_path.as_str(), source).as_str());
    m.append("`");
    m.append(comma_separated_profiles(&profile_name_list(&c.profiles)).as_str());
    Err(m)
}

/// The profiles of the configuration file, for listing.
pub fn list_profiles(config: &Option<LoadedSepheraConfig>, source: &SourceLocation) -> (r: AvailableContextProfiles)
    ensures
        match *config {
            Some(c) => r.source_path matches Some(p) && p@ == shown_config_path(c.source_path@, *source)
                && views(r.profiles@) == profile_names(c.profiles@),
            None => r.source_path is None && r.profiles@.len() == 0,
        },
{
    match config {
        Some(c) => AvailableContextProfiles {
            source_path: Some(display_config_path(c.source_path.as_str(), source)),
            profiles: profile_name_list(&c.profiles),
        },
        None => AvailableContextProfiles { source_path: None, profiles: Vec::new() },
    }
}

/// What a `context` command asks for, before configuration is applied.
#[derive(Debug, Clone, PartialEq, Eq)]
pub struct ContextCommandInput {
    pub source: SourceRequest,
    pub config: Option<String>,
    pub no_config: bool,
    pub profile: Option<String>,
    pub list_profiles: bool,
    pub ignore: Vec<String>,
    pub focus: Vec<String>,
    pub diff: Option<String>,
    pub budget: Option<u64>,
    pub compress: Option<String>,
    pub format: Option<String>,
    pub output: Option<String>,
}

/// The options of a context pack once configuration, profile and command
/// line are layered.
#[derive(Debug, Clone, PartialEq, Eq)]
pub struct ContextOptions {
    pub ignore: Vec<String>,
    pub focus: Vec<String>,
    pub diff: Option<String>,
    pub budget: u64,
    pub compress: Option<String>,
    pub format: String,
    pub output: Option<String>,
}

/// The first of three optional values that is set.
pub open spec fn layered<T>(cli: Option<T>, profile: Option<T>, base: Option<T>) -> Option<T> {
    if cli is Some { cli } else if profile is Some { profile } else { base }
}

pub open spec fn sec_ignore(s: Option<LoadedContextSection>) -> Seq<String> {
    match s { Some(x) => x.ignore@, None => Seq::empty() }
}

pub open spec fn sec_focus(s: Option<LoadedContextSection>) -> Seq<String> {
    match s { Some(x) => x.focus@, None => Seq::empty() }
}

pub open spec fn sec_diff(s: Option<LoadedContextSection>) -> Option<String> {
    match s { Some(x) => x.diff, None => None }
}

pub open spec fn sec_budget(s: Option<LoadedContextSection>) -> Option<u64> {
    match s { Some(x) => x.budget, None => None }
}

pub open spec fn sec_compress(s: Option<LoadedContextSection>) -> Option<String> {
    match s { Some(x) => x.compress, None => None }
}

pub open spec fn sec_format(s: Option<LoadedContextSection>) -> Option<String> {
    match s { Some(x) => x.format, None => None }
}

pub open spec fn sec_output(s: Option<LoadedContextSection>) -> Option<String> {
    match s { Some(x) => x.output, None => None }
}

/// `o` layers the base section, the profile section and the command line:
/// lists are concatenated in that order, and a single value is taken from
/// the command line, else the profile, else the base section, else the
/// default.
pub open spec fn layered_options(
    o: ContextOptions,
    request: ContextCommandInput,
    base: Option<LoadedContextSection>,
    profile: Option<LoadedContextSection>,
) -> bool {
    &&& o.ignore@ == sec_ignore(base) + sec_ignore(profile) + request.ignore@
    &&& o.focus@ == sec_focus(base) + sec_focus(profile) + request.focus@
    &&& o.diff == layered(request.diff, sec_diff(profile), sec_diff(base))
    &&& o.budget == match layered(request.budget, sec_budget(profile), sec_budget(base)) {
        Some(b) => b,
        None => DEFAULT_CONTEXT_BUDGET,
    }
    &&& o.compress == layered(request.compress, sec_compress(profile), sec_compress(base))
    &&& o.format@ == match layered(request.format, sec_format(profile), sec_format(base)) {
        Some(f) => f@,
        None => "markdown"@,
    }
    &&& o.output == layered(request.output, sec_output(profile), sec_output(base))
}

fn clone_strings(v: &Vec<String>) -> (r: Vec<String>)
    ensures
        r@ == v@,
{
    let mut r: Vec<String> = Vec::new();
    let mut i: usize = 0;
    while i < v.len()
        invariant
            i <= v@.len(),
            r@ == v@.take(i as int),
        decreases v@.len() - i,
    {
        r.push(v[i].clone());
        assert(r@ =~= v@.take(i + 1));
        i = i + 1;
    }
    assert(v@.take(i as int) =~= v@);
    r
}

fn clone_opt(v: &Option<String>) -> (r: Option<String>)
    ensures
        r == *v,
{
    match v {
        Some(s) => Some(s.clone()),
        None => None,
    }
}

fn append_strings(v: &mut Vec<String>, w: &Vec<String>)
    ensures
        final(v)@ == old(v)@ + w@,
{
    let mut i: usize = 0;
    let ghost start = v@;
    while i < w.len()
        invariant
            i <= w@.len(),
            v@ == start + w@.take(i as int),
        decreases w@.len() - i,
    {
        v.push(w[i].clone());
        assert(v@ =~= start + w@.take(i + 1));
        i = i + 1;
    }
    assert(w@.take(i as int) =~= w@);
}

fn sec_at(config: &Option<LoadedSepheraConfig>, sel: Option<usize>) -> (r: Option<&LoadedContextSection>)
    requires
        sel matches Some(i) ==> config is Some && i < config->0.profiles@.len(),
    ensures
        match sel {
            Some(i) => r matches Some(s) && *s == config->0.profiles@[i as int].1,
            None => r is None,
        },
{
    match sel {
        Some(i) => match config {
            Some(c) => Some(&c.profiles[i].1),
            None => None,
        },
        None => None,
    }
}

/// Layers the configuration file, the selected profile and the command line
/// into the options of a context pack.
pub fn merge_context_sources(
    request: ContextCommandInput,
    config: &Option<LoadedSepheraConfig>,
    source: &SourceLocation,
) -> (r: Result<ContextOptions, String>)
    ensures
        match profile_error(request.profile, *config, *source) {
            Some(e) => r matches Err(m) && m@ == e,
            None => r matches Ok(o) && layered_options(o, request, match *config {
                Some(c) => Some(c.context),
                None => None,
            }, chosen_section(request.profile, *config)),
        },
{
    let ghost req = request;
    let selected = match resolve_selected_profile(&request.profile, config, source) {
        Ok(sel) => sel,
        Err(e) => { return Err(e); },
    };
    proof {
        if request.profile is Some && config is Some {
            lemma_find_profile(config->0.profiles@, request.profile->0@);
        }
    }
    let base: Option<&LoadedContextSection> = match config {
        Some(c) => Some(&c.context),
        None => None,
    };
    let prof = sec_at(config, selected);
    let mut ignore: Vec<String> = match base { Some(b) => clone_strings(&b.ignore), None => Vec::new() };
    if let Some(p) = prof { append_strings(&mut ignore, &p.ignore); }
    append_strings(&mut ignore, &request.ignore);
    let mut focus: Vec<String> = match base { Some(b) => clone_strings(&b.focus), None => Vec::new() };
    if let Some(p) = prof { append_strings(&mut focus, &p.focus); }
    append_strings(&mut focus, &request.focus);
    let diff = if request.diff.is_some() {
        request.diff
    } else {
        match prof {
            Some(p) if p.diff.is_some() => clone_opt(&p.diff),
            _ => match base { Some(b) => clone_opt(&b.diff), None => None },
        }
    };
    let budget_opt: Option<u64> = if request.budget.is_some() {
        request.budget
    } else {
        match prof {
            Some(p) if p.budget.is_some() => p.budget,
            _ => match base { Some(b) => b.budget, None => None },
        }
    };
    let budget = match budget_opt { Some(b) => b, None => DEFAULT_CONTEXT_BUDGET };
    let compress = if request.compress.is_some() {
        request.compress
    } else {
        match prof {
            Some(p) if p.compress.is_some() => clone_opt(&p.compress),
            _ => match base { Some(b) => clone_opt(&b.compress), None => None },
        }
    };
    let format_opt = if request.format.is_some() {
        request.format
    } else {
        match prof {
            Some(p) if p.format.is_some() => clone_opt(&p.format),
            _ => match base { Some(b) => clone_opt(&b.format), None => None },
        }
    };
    let format = match format_opt { Some(f) => f, None => "markdown".to_owned() };
    let output = if request.output.is_some() {
        request.output
    } else {
        match prof {
            Some(p) if p.output.is_some() => clone_opt(&p.output),
            _ => match base { Some(b) => clone_opt(&b.output), None => None },
        }
    };
    let o = ContextOptions { ignore, focus, diff, budget, compress, format, output };
    Ok(o)
}

/// For a remote repository whose configuration was discovered in the
/// checkout, an output path inside the checkout is meant relative to the
/// current directory: the part of `output` within the configuration file's
/// directory, which the caller joins to the current directory; `None` where
/// `output` stays as it is.
pub open spec fn remote_output_part(output: Seq<char>, config_path: Option<Seq<char>>, is_remote: bool, uses_auto_discovery: bool) -> Option<Seq<char>> {
    if !is_remote || !uses_auto_discovery {
        None
    } else {
        match config_path {
            None => None,
            Some(p) => if path_starts_with(output, parent_directory(p)) {
                Some(path_remainder(output, parent_directory(p)))
            } else {
                None
            },
        }
    }
}

/// The part of an output path that is to be read from the current
/// directory, for a remote repository's discovered configuration.
pub fn remote_output_relative(
    output: &str,
    config: &Option<LoadedSepheraConfig>,
    is_remote: bool,
    uses_auto_discovery: bool,
) -> (r: Option<String>)
    ensures
        r matches Some(s) ==> remote_output_part(output@, match *config { Some(c) => Some(c.source_path@), None => None }, is_remote, uses_auto_discovery) == Some(s@),
        r is None ==> remote_output_part(output@, match *config { Some(c) => Some(c.source_path@), None => None }, is_remote, uses_auto_discovery) is None,
{
    if !is_remote || !uses_auto_discovery {
        return None;
    }
    match config {
        None => None,
        Some(c) => {
            let dir = config_directory(c.source_path.as_str());
            strip_path_prefix(output, dir.as_str())
        },
    }
}

} // verus!
