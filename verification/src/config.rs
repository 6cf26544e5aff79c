//! The action's configuration: the inputs it reads, how they are checked,
//! and the title of the day's standup issue.
use vstd::prelude::*;
use std::fmt::Write;
use vstd::string::*;

use crate::text::{
    chars_equal, chars_of, lemma_eq_ignore_ascii_case_equivalence, lemma_trim_idempotent,
    opt_string_view, eq_ignore_ascii_case, eq_ignore_ascii_case_chars, split_chars, split_on, string_from_chars,
    trim, trim_chars,
};

verus! {

/// The separators between team slugs: commas and line breaks.
pub open spec fn slug_separators() -> Seq<char> {
    seq![',', '\n']
}

/// Whether `list` holds a slug equal to `slug` up to ASCII case.
pub open spec fn contains_ignoring_case(list: Seq<Seq<char>>, slug: Seq<char>) -> bool {
    exists|j: int| 0 <= j < list.len() && eq_ignore_ascii_case(#[trigger] list[j], slug)
}

/// The slugs named by `pieces`, in order: each piece trimmed, blank pieces
/// dropped, and a slug equal up to ASCII case to an earlier one dropped.
pub open spec fn collect_slugs(pieces: Seq<Seq<char>>) -> Seq<Seq<char>>
    decreases pieces.len(),
{
    if pieces.len() == 0 {
        Seq::empty()
    } else {
        let kept = collect_slugs(pieces.drop_last());
        let slug = trim(pieces.last());
        if slug.len() > 0 && !contains_ignoring_case(kept, slug) {
            kept.push(slug)
        } else {
            kept
        }
    }
}

/// The team slugs that an input value names, or `None` where it names none.
pub open spec fn parse_team_slugs(value: Seq<char>) -> Option<Seq<Seq<char>>> {
    let slugs = collect_slugs(split_on(value, slug_separators()));
    if slugs.len() == 0 {
        None
    } else {
        Some(slugs)
    }
}

/// Whether no two of `list` are equal up to ASCII case.
pub open spec fn distinct_ignoring_case(list: Seq<Seq<char>>) -> bool {
    forall|i: int, j: int|
        0 <= i < list.len() && 0 <= j < list.len() && i != j ==> !eq_ignore_ascii_case(
            #[trigger] list[i],
            #[trigger] list[j],
        )
}

/// Whether `slug` is non-empty and has no white space at either end.
pub open spec fn is_clean_slug(slug: Seq<char>) -> bool {
    slug.len() > 0 && trim(slug) == slug
}

/// Whether `slug` is the trimmed text of one of `pieces`.
pub open spec fn names_piece(pieces: Seq<Seq<char>>, slug: Seq<char>) -> bool {
    exists|k: int| 0 <= k < pieces.len() && trim(#[trigger] pieces[k]) == slug
}

proof fn lemma_collect_slugs(pieces: Seq<Seq<char>>)
    ensures
        forall|i: int|
            0 <= i < collect_slugs(pieces).len() ==> is_clean_slug(
                #[trigger] collect_slugs(pieces)[i],
            ),
        forall|i: int|
            0 <= i < collect_slugs(pieces).len() ==> names_piece(
                pieces,
                #[trigger] collect_slugs(pieces)[i],
            ),
        distinct_ignoring_case(collect_slugs(pieces)),
        forall|k: int|
            0 <= k < pieces.len() && trim(#[trigger] pieces[k]).len() > 0 ==> contains_ignoring_case(
                collect_slugs(pieces),
                trim(pieces[k]),
            ),
    decreases pieces.len(),
{
    if pieces.len() > 0 {
        let prev = pieces.drop_last();
        lemma_collect_slugs(prev);
        let kept = collect_slugs(prev);
        let slug = trim(pieces.last());
        let res = collect_slugs(pieces);
        lemma_trim_idempotent(pieces.last());
        assert forall|i: int| 0 <= i < res.len() implies names_piece(pieces, #[trigger] res[i]) by {
            if i < kept.len() {
                assert(names_piece(prev, kept[i]));
                let k = choose|k: int| 0 <= k < prev.len() && trim(#[trigger] prev[k]) == kept[i];
                assert(pieces[k] == prev[k]);
            } else {
                assert(trim(pieces[pieces.len() - 1]) == slug);
            }
        }
        if slug.len() > 0 && !contains_ignoring_case(kept, slug) {
            assert forall|i: int, j: int|
                0 <= i < res.len() && 0 <= j < res.len() && i != j implies !eq_ignore_ascii_case(
                #[trigger] res[i],
                #[trigger] res[j],
            ) by {
                if i == kept.len() {
                    assert(!eq_ignore_ascii_case(kept[j], slug));
                    lemma_eq_ignore_ascii_case_equivalence(slug, kept[j], slug);
                } else if j == kept.len() {
                    assert(!eq_ignore_ascii_case(kept[i], slug));
                } else {
                    assert(res[i] == kept[i] && res[j] == kept[j]);
                }
            }
        }
        assert forall|k: int|
            0 <= k < pieces.len() && trim(#[trigger] pieces[k]).len() > 0 implies contains_ignoring_case(
            res,
            trim(pieces[k]),
        ) by {
            if k < prev.len() {
                assert(pieces[k] == prev[k]);
                assert(contains_ignoring_case(kept, trim(prev[k])));
                let j = choose|j: int|
                    0 <= j < kept.len() && eq_ignore_ascii_case(#[trigger] kept[j], trim(prev[k]));
                assert(res[j] == kept[j]);
            } else {
                if slug.len() > 0 && !contains_ignoring_case(kept, slug) {
                    lemma_eq_ignore_ascii_case_equivalence(slug, slug, slug);
                    assert(res[kept.len() as int] == slug);
                } else {
                    let j = choose|j: int|
                        0 <= j < kept.len() && eq_ignore_ascii_case(#[trigger] kept[j], slug);
                    assert(res[j] == kept[j]);
                }
            }
        }
    }
}

/// The team slugs that an input names are non-empty and carry no white
/// space at either end, no two are equal up to ASCII case, and each comes
/// from the input in the order of first mention; every slug that the input
/// names is among them up to ASCII case; and the input is refused exactly
/// when it names none.
pub proof fn lemma_team_slugs_law(value: Seq<char>)
    ensures
        match parse_team_slugs(value) {
            Some(slugs) => {
                &&& slugs.len() > 0
                &&& forall|i: int| 0 <= i < slugs.len() ==> is_clean_slug(#[trigger] slugs[i])
                &&& forall|i: int|
                    0 <= i < slugs.len() ==> names_piece(
                        split_on(value, slug_separators()),
                        #[trigger] slugs[i],
                    )
                &&& distinct_ignoring_case(slugs)
                &&& forall|k: int|
                    0 <= k < split_on(value, slug_separators()).len() && trim(
                        #[trigger] split_on(value, slug_separators())[k],
                    ).len() > 0 ==> contains_ignoring_case(
                        slugs,
                        trim(split_on(value, slug_separators())[k]),
                    )
            },
            None => forall|k: int|
                0 <= k < split_on(value, slug_separators()).len() ==> trim(
                    #[trigger] split_on(value, slug_separators())[k],
                ).len() == 0,
        },
{
    let pieces = split_on(value, slug_separators());
    lemma_collect_slugs(pieces);
}

/// Whether `slug` is equal up to ASCII case to one of `list`.
fn contains_ignoring_case_exec(list: &Vec<Vec<char>>, slug: &Vec<char>) -> (res: bool)
    ensures
        res == contains_ignoring_case(list.deep_view(), slug@),
{
    let mut j: usize = 0;
    while j < list.len()
        invariant
            j <= list.len(),
            forall|k: int|
                0 <= k < j ==> !eq_ignore_ascii_case(#[trigger] list.deep_view()[k], slug@),
        decreases list.len() - j,
    {
        if eq_ignore_ascii_case_chars(&list[j], slug) {
            assert(list.deep_view()[j as int] == list@[j as int]@);
            return true;
        }
        assert(list.deep_view()[j as int] == list@[j as int]@);
        j = j + 1;
    }
    false
}

/// The strings made of each character vector of `list`.
pub fn strings_from_char_vecs(list: &Vec<Vec<char>>) -> (res: Vec<String>)
    ensures
        res.deep_view() == list.deep_view(),
{
    let mut res: Vec<String> = Vec::new();
    let mut i: usize = 0;
    while i < list.len()
        invariant
            i <= list.len(),
            res@.len() == i,
            forall|k: int| 0 <= k < i ==> #[trigger] res@[k]@ == list@[k]@,
        decreases list.len() - i,
    {
        let s = string_from_chars(&list[i]);
        res.push(s);
        i = i + 1;
    }
    assert forall|k: int| 0 <= k < res@.len() implies #[trigger] res.deep_view()[k]
        == list.deep_view()[k] by {
        assert(res.deep_view()[k] == res@[k]@);
        assert(list.deep_view()[k] == list@[k]@);
    }
    assert(res.deep_view() =~= list.deep_view());
    res
}


/// The value bound to `name` in `vars`: the first binding of that name.
pub open spec fn lookup_value(vars: Seq<(String, String)>, name: Seq<char>) -> Option<Seq<char>>
    decreases vars.len(),
{
    if vars.len() == 0 {
        None
    } else if vars[0].0@ == name {
        Some(vars[0].1@)
    } else {
        lookup_value(vars.drop_first(), name)
    }
}

/// The value bound to `name` in `vars` (see `lookup_value`).
pub fn lookup(vars: &Vec<(String, String)>, name: &str) -> (res: Option<String>)
    ensures
        match res {
            Some(v) => lookup_value(vars@, name@) == Some(v@),
            None => lookup_value(vars@, name@) is None,
        },
{
    let wanted = chars_of(name);
    let mut i: usize = 0;
    assert(vars@.skip(0) =~= vars@);
    while i < vars.len()
        invariant
            i <= vars.len(),
            wanted@ == name@,
            lookup_value(vars@, name@) == lookup_value(vars@.skip(i as int), name@),
        decreases vars.len() - i,
    {
        assert(vars@.skip(i as int).drop_first() =~= vars@.skip(i as int + 1));
        assert(vars@.skip(i as int)[0] == vars@[i as int]);
        let key = chars_of(vars[i].0.as_str());
        if chars_equal(&key, &wanted) {
            return Some(vars[i].1.clone());
        }
        i = i + 1;
    }
    None
}

/// The path of `path` below `base`, by whole path components, as
/// `Path::strip_prefix` computes it; `None` where `base` is no prefix of it.
pub uninterp spec fn spec_path_strip_prefix(path: Seq<char>, base: Seq<char>) -> Option<Seq<char>>;

/// `Path::strip_prefix`: the rest of `path` below `base`, on the Unix paths
/// that this action runs with. The claim is that its result depends on the
/// two paths alone.
#[verifier::external_body]
fn path_strip_prefix(path: &str, base: &str) -> (res: Option<String>)
    ensures
        match res {
            Some(rest) => spec_path_strip_prefix(path@, base@) == Some(rest@),
            None => spec_path_strip_prefix(path@, base@) is None,
        },
{
    std::path::Path::new(path).strip_prefix(base).ok().map(|rest| rest.to_string_lossy().into_owned())
}

/// The path `tail` joined below `base`, as `Path::join` does it on Unix: an
/// absolute `tail` replaces `base`; otherwise `tail` follows `base`, after a
/// `/` where `base` is non-empty and does not end in one.
pub open spec fn joined_path(base: Seq<char>, tail: Seq<char>) -> Seq<char> {
    if tail.len() > 0 && tail[0] == '/' {
        tail
    } else if base.len() > 0 && base.last() != '/' {
        base + seq!['/'] + tail
    } else {
        base + tail
    }
}

/// The path `tail` joined below `base` (see `joined_path`).
pub fn path_join(base: &str, tail: &str) -> (res: String)
    ensures
        res@ == joined_path(base@, tail@),
{
    let b = chars_of(base);
    let t = chars_of(tail);
    if t.len() > 0 && t[0] == '/' {
        return string_from_chars(&t);
    }
    let mut joined = b;
    if joined.len() > 0 && joined[joined.len() - 1] != '/' {
        joined.push('/');
    }
    let ghost before = joined@;
    let mut i: usize = 0;
    while i < t.len()
        invariant
            i <= t.len(),
            joined@ == before + t@.take(i as int),
        decreases t.len() - i,
    {
        joined.push(t[i]);
        assert(t@.take(i as int + 1) =~= t@.take(i as int).push(t@[i as int]));
        i = i + 1;
    }
    assert(t@.take(t.len() as int) =~= t@);
    assert(before + t@ =~= joined_path(base@, tail@));
    string_from_chars(&joined)
}

/// Where the template at `path` is found: a path inside the runner's
/// workspace is moved to the same place inside the container's workspace
/// when both are known; any other path stays as it is.
pub open spec fn resolve_template_path(
    path: Seq<char>,
    host_workspace: Option<Seq<char>>,
    container_workspace: Option<Seq<char>>,
) -> Seq<char> {
    match (host_workspace, container_workspace) {
        (Some(host), Some(container)) => match spec_path_strip_prefix(path, host) {
            Some(rest) => joined_path(container, rest),
            None => path,
        },
        _ => path,
    }
}


/// Whether `chrono_tz` knows the time zone `name`.
pub uninterp spec fn spec_is_known_timezone(name: Seq<char>) -> bool;

/// `Tz::from_str` of `chrono_tz`: whether `name` is a time zone of its
/// database. The claim is that the answer depends on the name alone.
#[verifier::external_body]
fn is_known_timezone(name: &str) -> (res: bool)
    ensures
        res == spec_is_known_timezone(name@),
{
    name.parse::<chrono_tz::Tz>().is_ok()
}

/// The calendar date, written by `pattern`, that the time zone `timezone`
/// shows at `unix_seconds`; `None` where `chrono` cannot render it.
pub uninterp spec fn spec_local_date_text(
    unix_seconds: i64,
    timezone: Seq<char>,
    pattern: Seq<char>,
) -> Option<Seq<char>>;

/// Whether `unix_seconds` falls on a day whose neighbours on both sides are
/// dates of `chrono` (years -262143 to 262142): there any time zone's local
/// date, at most a day away, can be held.
pub open spec fn is_datable_instant(unix_seconds: i64) -> bool {
    -8_334_601_142_400 <= unix_seconds <= 8_210_266_790_399
}

/// The local date at an instant, by `chrono` and `chrono_tz`: the time zone
/// parsed by `Tz::from_str`, the instant made by `DateTime::from_timestamp`,
/// its local date time found by `checked_add_offset` of the zone's offset at
/// that instant (`offset_from_utc_datetime`), and its date written by
/// `format`. The claim is that the text depends on the three arguments alone,
/// `None` standing for a zone or instant that `chrono` refuses or a pattern it
/// cannot write; and that the title's pattern is always written for a known
/// zone and an instant a day inside `chrono`'s range, since a zone's offset is
/// less than a day (`FixedOffset::east_opt`).
#[verifier::external_body]
fn local_date_text(unix_seconds: i64, timezone: &str, pattern: &str) -> (res: Option<String>)
    ensures
        match res {
            Some(text) => spec_local_date_text(unix_seconds, timezone@, pattern@) == Some(text@),
            None => spec_local_date_text(unix_seconds, timezone@, pattern@) is None,
        },
        spec_is_known_timezone(timezone@) && is_datable_instant(unix_seconds) && pattern@
            == title_date_pattern() ==> res is Some,
{
    let tz: chrono_tz::Tz = timezone.parse().ok()?;
    let utc = chrono::DateTime::from_timestamp(unix_seconds, 0)?.naive_utc();
    let offset = chrono::Offset::fix(&chrono::TimeZone::offset_from_utc_datetime(&tz, &utc));
    let local = utc.checked_add_offset(offset)?;
    let mut text = String::new();
    write!(text, "{}", local.date().format(pattern)).ok()?;
    Some(text)
}

/// The `strftime` pattern of the date in the issue title.
pub open spec fn title_date_pattern() -> Seq<char> {
    "%a %b %d %Y"@
}

/// The title of the standup issue dated `date`.
pub open spec fn title_for_date(date: Seq<char>) -> Seq<char> {
    "[DSM] "@ + date
}

/// What the action needs to know, checked.
pub struct Config {
    pub github_token: String,
    pub repo_owner: String,
    pub repo_name: String,
    pub team_slugs: Vec<String>,
    pub issue_type: String,
    /// The template that replaces the built-in one, where one was given.
    pub template_path: Option<String>,
    /// The IANA name of the time zone that dates the title.
    pub timezone: String,
}

/// The contents of a `Config`.
pub struct ConfigModel {
    pub github_token: Seq<char>,
    pub repo_owner: Seq<char>,
    pub repo_name: Seq<char>,
    pub team_slugs: Seq<Seq<char>>,
    pub issue_type: Seq<char>,
    pub template_path: Option<Seq<char>>,
    pub timezone: Seq<char>,
}

impl View for Config {
    type V = ConfigModel;

    open spec fn view(&self) -> ConfigModel {
        ConfigModel {
            github_token: self.github_token@,
            repo_owner: self.repo_owner@,
            repo_name: self.repo_name@,
            team_slugs: self.team_slugs.deep_view(),
            issue_type: self.issue_type@,
            template_path: opt_string_view(self.template_path),
            timezone: self.timezone@,
        }
    }
}

/// Why the action's inputs were refused, as values.
pub enum ConfigFailure {
    InvalidTimezone(Seq<char>),
    MissingGithubToken,
    MissingRepoOwner,
    MissingRepoName,
    MissingTeamSlugs,
    EmptyTeamSlugs,
    MissingIssueType,
}

impl View for ConfigError {
    type V = ConfigFailure;

    open spec fn view(&self) -> ConfigFailure {
        match self {
            ConfigError::InvalidTimezone(name) => ConfigFailure::InvalidTimezone(name@),
            ConfigError::MissingGithubToken => ConfigFailure::MissingGithubToken,
            ConfigError::MissingRepoOwner => ConfigFailure::MissingRepoOwner,
            ConfigError::MissingRepoName => ConfigFailure::MissingRepoName,
            ConfigError::MissingTeamSlugs => ConfigFailure::MissingTeamSlugs,
            ConfigError::EmptyTeamSlugs => ConfigFailure::EmptyTeamSlugs,
            ConfigError::MissingIssueType => ConfigFailure::MissingIssueType,
        }
    }
}

/// The issue type that the inputs name: the trimmed input, unless blank.
pub open spec fn issue_type_input(vars: Seq<(String, String)>) -> Option<Seq<char>> {
    match lookup_value(vars, "DSM_ISSUE_TYPE"@) {
        Some(value) => if trim(value).len() > 0 {
            Some(trim(value))
        } else {
            None
        },
        None => None,
    }
}

/// The template path that the inputs name: none when absent or blank, else
/// resolved against the workspaces (see `resolve_template_path`).
pub open spec fn template_path_input(vars: Seq<(String, String)>) -> Option<Seq<char>> {
    match lookup_value(vars, "DSM_TEMPLATE_PATH"@) {
        Some(path) => if trim(path).len() > 0 {
            Some(
                resolve_template_path(
                    path,
                    lookup_value(vars, "DSM_HOST_WORKSPACE"@),
                    lookup_value(vars, "GITHUB_WORKSPACE"@),
                ),
            )
        } else {
            None
        },
        None => None,
    }
}

/// The time zone that the inputs name, `UTC` where they name none.
pub open spec fn timezone_input(vars: Seq<(String, String)>) -> Seq<char> {
    match lookup_value(vars, "DSM_TIMEZONE"@) {
        Some(name) => name,
        None => "UTC"@,
    }
}

/// The configuration that the inputs `vars` give, or the first reason to
/// refuse them, checked in this order: time zone, token, owner, repository,
/// team slugs (present, then naming a team), issue type.
pub open spec fn expected_config(vars: Seq<(String, String)>) -> Result<ConfigModel, ConfigFailure> {
    expected_config_in_zone(vars, spec_is_known_timezone(timezone_input(vars)))
}

/// The configuration that the inputs `vars` give (see `expected_config`),
/// where `timezone_known` tells whether their time zone is known.
pub open spec fn expected_config_in_zone(vars: Seq<(String, String)>, timezone_known: bool) -> Result<
    ConfigModel,
    ConfigFailure,
> {
    let timezone = timezone_input(vars);
    if !timezone_known {
        Err(ConfigFailure::InvalidTimezone(timezone))
    } else {
        match lookup_value(vars, "GITHUB_TOKEN"@) {
            None => Err(ConfigFailure::MissingGithubToken),
            Some(github_token) => match lookup_value(vars, "GITHUB_REPO_OWNER"@) {
                None => Err(ConfigFailure::MissingRepoOwner),
                Some(repo_owner) => match lookup_value(vars, "GITHUB_REPO_NAME"@) {
                    None => Err(ConfigFailure::MissingRepoName),
                    Some(repo_name) => match lookup_value(vars, "DSM_TEAM_SLUGS"@) {
                        None => Err(ConfigFailure::MissingTeamSlugs),
                        Some(raw_slugs) => match parse_team_slugs(raw_slugs) {
                            None => Err(ConfigFailure::EmptyTeamSlugs),
                            Some(team_slugs) => match issue_type_input(vars) {
                                None => Err(ConfigFailure::MissingIssueType),
                                Some(issue_type) => Ok(
                                    ConfigModel {
                                        github_token,
                                        repo_owner,
                                        repo_name,
                                        team_slugs,
                                        issue_type,
                                        template_path: template_path_input(vars),
                                        timezone,
                                    },
                                ),
                            },
                        },
                    },
                },
            },
        }
    }
}

/// An accepted configuration names at least one team, all different up to
/// ASCII case, a non-blank trimmed issue type, and a time zone that
/// `chrono_tz` knows: the checks that precede any call to GitHub.
pub proof fn lemma_accepted_config_is_complete(vars: Seq<(String, String)>)
    ensures
        expected_config(vars) matches Ok(config) ==> {
            &&& config.team_slugs.len() > 0
            &&& distinct_ignoring_case(config.team_slugs)
            &&& is_clean_slug(config.issue_type)
            &&& spec_is_known_timezone(config.timezone)
        },
{
    if let Ok(config) = expected_config(vars) {
        let raw = lookup_value(vars, "DSM_TEAM_SLUGS"@)->0;
        lemma_team_slugs_law(raw);
        let issue_type = lookup_value(vars, "DSM_ISSUE_TYPE"@)->0;
        lemma_trim_idempotent(issue_type);
    }
}

/// An accepted configuration carries each input where it belongs: the token,
/// owner and repository exactly as given, the team slugs that the team
/// input names, the issue type input trimmed, the named time zone (`UTC`
/// where none is named), and no template path where none or a blank one is
/// given. The inputs are accepted exactly when the time zone is known, the
/// token, owner, repository and team inputs are present, the team input
/// names a team and the issue type input is not blank.
pub proof fn lemma_config_carries_the_inputs(vars: Seq<(String, String)>, timezone_known: bool)
    ensures
        expected_config_in_zone(vars, timezone_known) matches Ok(config) ==> {
            &&& Some(config.github_token) == lookup_value(vars, "GITHUB_TOKEN"@)
            &&& Some(config.repo_owner) == lookup_value(vars, "GITHUB_REPO_OWNER"@)
            &&& Some(config.repo_name) == lookup_value(vars, "GITHUB_REPO_NAME"@)
            &&& lookup_value(vars, "DSM_TEAM_SLUGS"@) matches Some(raw) && parse_team_slugs(raw)
                == Some(config.team_slugs)
            &&& lookup_value(vars, "DSM_ISSUE_TYPE"@) matches Some(raw_type) && config.issue_type
                == trim(raw_type)
            &&& config.timezone == (match lookup_value(vars, "DSM_TIMEZONE"@) {
                Some(name) => name,
                None => "UTC"@,
            })
            &&& (match lookup_value(vars, "DSM_TEMPLATE_PATH"@) {
                Some(path) => trim(path).len() == 0 <==> config.template_path is None,
                None => config.template_path is None,
            })
        },
        expected_config_in_zone(vars, timezone_known) is Ok <==> {
            &&& timezone_known
            &&& lookup_value(vars, "GITHUB_TOKEN"@) is Some
            &&& lookup_value(vars, "GITHUB_REPO_OWNER"@) is Some
            &&& lookup_value(vars, "GITHUB_REPO_NAME"@) is Some
            &&& lookup_value(vars, "DSM_TEAM_SLUGS"@) matches Some(raw) && parse_team_slugs(raw) is Some
            &&& lookup_value(vars, "DSM_ISSUE_TYPE"@) matches Some(raw_type) && trim(raw_type).len() > 0
        },
{
}

/// The value of a configuration outcome.
pub open spec fn config_outcome(res: Result<Config, ConfigError>) -> Result<ConfigModel, ConfigFailure> {
    match res {
        Ok(config) => Ok(config@),
        Err(error) => Err(error@),
    }
}

impl Config {
    /// The team slugs named by `value` (see `parse_team_slugs`). The slugs
    /// seen so far are those kept, searched in order up to ASCII case rather
    /// than kept lower-cased in a `HashSet`: vstd
    /// gives `HashSet` a model of its contents only for key types that it knows to obey its hash-table key model, and `String` is not one of them.
    pub fn team_slugs(value: String) -> (res: Result<Vec<String>, ConfigError>)
        ensures
            match parse_team_slugs(value@) {
                Some(slugs) => res matches Ok(v) && v.deep_view() == slugs,
                None => res matches Err(ConfigError::EmptyTeamSlugs),
            },
    {
        let chars = chars_of(value.as_str());
        let seps: Vec<char> = vec![',', '\n'];
        assert(seps@ =~= slug_separators());
        let pieces = split_chars(&chars, &seps);
        let ghost pieces_view = split_on(value@, slug_separators());
        let mut kept: Vec<Vec<char>> = Vec::new();
        let mut i: usize = 0;
        while i < pieces.len()
            invariant
                i <= pieces.len(),
                pieces@.len() == pieces_view.len(),
                forall|k: int| 0 <= k < pieces@.len() ==> #[trigger] pieces@[k]@ == pieces_view[k],
                kept.deep_view() == collect_slugs(pieces_view.take(i as int)),
            decreases pieces.len() - i,
        {
            let slug = trim_chars(&pieces[i]);
            assert(pieces_view.take(i as int + 1).drop_last() =~= pieces_view.take(i as int));
            assert(pieces_view.take(i as int + 1).last() == pieces@[i as int]@);
            if slug.len() > 0 && !contains_ignoring_case_exec(&kept, &slug) {
                let ghost before = kept.deep_view();
                let ghost old_kept = kept@;
                kept.push(slug);
                assert forall|k: int| 0 <= k < kept@.len() implies #[trigger] kept.deep_view()[k]
                    == before.push(slug@)[k] by {
                    if k < old_kept.len() {
                        assert(kept@[k] == old_kept[k]);
                    }
                }
                assert(kept.deep_view() =~= before.push(slug@));
            }
            i = i + 1;
        }
        assert(pieces_view.take(pieces.len() as int) =~= pieces_view);
        if kept.len() == 0 {
            return Err(ConfigError::EmptyTeamSlugs);
        }
        Ok(strings_from_char_vecs(&kept))
    }

    /// Where the template at `path` is found (see `resolve_template_path`).
    pub fn template_path(
        path: String,
        host_workspace: Option<String>,
        container_workspace: Option<String>,
    ) -> (res: String)
        ensures
            res@ == resolve_template_path(
                path@,
                opt_string_view(host_workspace),
                opt_string_view(container_workspace),
            ),
    {
        match (host_workspace, container_workspace) {
            (Some(host), Some(container)) => match path_strip_prefix(path.as_str(), host.as_str()) {
                Some(rest) => path_join(container.as_str(), rest.as_str()),
                None => path,
            },
            _ => path,
        }
    }

    /// The configuration that the named inputs `vars` give (see
    /// `expected_config`).
    pub fn from_lookup(vars: &Vec<(String, String)>) -> (res: Result<Config, ConfigError>)
        ensures
            config_outcome(res) == expected_config(vars@),
    {
        let timezone = Config::timezone_of(vars);
        let timezone_known = is_known_timezone(timezone.as_str());
        Config::from_lookup_given_zone(vars, timezone_known)
    }

    /// The time zone that the inputs `vars` name (see `timezone_input`).
    pub fn timezone_of(vars: &Vec<(String, String)>) -> (res: String)
        ensures
            res@ == timezone_input(vars@),
    {
        match lookup(vars, "DSM_TIMEZONE") {
            Some(name) => name,
            None => String::from_str("UTC"),
        }
    }

    /// The configuration that the inputs `vars` give, where `timezone_known`
    /// tells whether `chrono_tz` knows the time zone that they name (see
    /// `expected_config_in_zone`).
    pub fn from_lookup_given_zone(vars: &Vec<(String, String)>, timezone_known: bool) -> (res:
        Result<Config, ConfigError>)
        ensures
            config_outcome(res) == expected_config_in_zone(vars@, timezone_known),
    {
        let timezone = Config::timezone_of(vars);
        if !timezone_known {
            return Err(ConfigError::InvalidTimezone(timezone));
        }
        let github_token = match lookup(vars, "GITHUB_TOKEN") {
            Some(v) => v,
            None => return Err(ConfigError::MissingGithubToken),
        };
        let repo_owner = match lookup(vars, "GITHUB_REPO_OWNER") {
            Some(v) => v,
            None => return Err(ConfigError::MissingRepoOwner),
        };
        let repo_name = match lookup(vars, "GITHUB_REPO_NAME") {
            Some(v) => v,
            None => return Err(ConfigError::MissingRepoName),
        };
        let raw_slugs = match lookup(vars, "DSM_TEAM_SLUGS") {
            Some(v) => v,
            None => return Err(ConfigError::MissingTeamSlugs),
        };
        let team_slugs = match Config::team_slugs(raw_slugs) {
            Ok(slugs) => slugs,
            Err(e) => return Err(e),
        };
        let issue_type = match lookup(vars, "DSM_ISSUE_TYPE") {
            Some(v) => {
                let trimmed = trim_chars(&chars_of(v.as_str()));
                if trimmed.len() == 0 {
                    return Err(ConfigError::MissingIssueType);
                }
                string_from_chars(&trimmed)
            },
            None => return Err(ConfigError::MissingIssueType),
        };
        let template_path = match lookup(vars, "DSM_TEMPLATE_PATH") {
            Some(path) => {
                let trimmed = trim_chars(&chars_of(path.as_str()));
                if trimmed.len() == 0 {
                    None
                } else {
                    Some(
                        Config::template_path(
                            path,
                            lookup(vars, "DSM_HOST_WORKSPACE"),
                            lookup(vars, "GITHUB_WORKSPACE"),
                        ),
                    )
                }
            },
            None => None,
        };
        Ok(Config { github_token, repo_owner, repo_name, team_slugs, issue_type, template_path, timezone })
    }

    /// The title of the standup issue for the instant `now_unix_seconds`: the
    /// date that the configured time zone shows then, after `[DSM] `; `None`
    /// where `chrono` cannot render that date, which cannot happen for a known
    /// zone and an instant a day inside `chrono`'s range.
    pub fn title(&self, now_unix_seconds: i64) -> (res: Option<String>)
        ensures
            match spec_local_date_text(now_unix_seconds, self.timezone@, title_date_pattern()) {
                Some(date) => res matches Some(title) && title@ == title_for_date(date),
                None => res is None,
            },
            spec_is_known_timezone(self.timezone@) && is_datable_instant(now_unix_seconds)
                ==> res is Some,
    {
        match local_date_text(now_unix_seconds, self.timezone.as_str(), "%a %b %d %Y") {
            Some(date) => Some(Config::title_from_date(date.as_str())),
            None => None,
        }
    }

    /// The title of the standup issue dated `date` (see `title_for_date`).
    pub fn title_from_date(date: &str) -> (res: String)
        ensures
            res@ == title_for_date(date@),
    {
        let mut title = String::from_str("[DSM] ");
        title.append(date);
        title
    }
}

/// Why the action's inputs were refused.
#[derive(Debug)]
pub enum ConfigError {
    /// The time zone is not one of the IANA database.
    InvalidTimezone(String),
    MissingGithubToken,
    MissingRepoOwner,
    MissingRepoName,
    MissingTeamSlugs,
    /// The team slugs input names no team.
    EmptyTeamSlugs,
    /// The issue type input is missing or blank.
    MissingIssueType,
}

impl ConfigError {
    /// The text that reports this error.
    pub open spec fn spec_message(&self) -> Seq<char> {
        match self {
            ConfigError::InvalidTimezone(name) => "invalid DSM_TIMEZONE `"@ + name@ + "`"@,
            ConfigError::MissingGithubToken => "GITHUB_TOKEN is required"@,
            ConfigError::MissingRepoOwner => "GITHUB_REPO_OWNER is required"@,
            ConfigError::MissingRepoName => "GITHUB_REPO_NAME is required"@,
            ConfigError::MissingTeamSlugs => "DSM_TEAM_SLUGS is required"@,
            ConfigError::EmptyTeamSlugs => "DSM_TEAM_SLUGS must contain at least one team slug"@,
            ConfigError::MissingIssueType => "DSM_ISSUE_TYPE is required"@,
        }
    }

    /// The text that reports this error.
    pub fn message(&self) -> (res: String)
        ensures
            res@ == self.spec_message(),
    {
        match self {
            ConfigError::InvalidTimezone(name) => {
                let mut text = String::from_str("invalid DSM_TIMEZONE `");
                text.append(name.as_str());
                text.append("`");
                text
            },
            ConfigError::MissingGithubToken => String::from_str("GITHUB_TOKEN is required"),
            ConfigError::MissingRepoOwner => String::from_str("GITHUB_REPO_OWNER is required"),
            ConfigError::MissingRepoName => String::from_str("GITHUB_REPO_NAME is required"),
            ConfigError::MissingTeamSlugs => String::from_str("DSM_TEAM_SLUGS is required"),
            ConfigError::EmptyTeamSlugs => String::from_str(
                "DSM_TEAM_SLUGS must contain at least one team slug",
            ),
            ConfigError::MissingIssueType => String::from_str("DSM_ISSUE_TYPE is required"),
        }
    }
}

} // verus!
