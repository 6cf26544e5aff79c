//! What the action reads out of GitHub's answers: which issue type to use,
//! which open issue is the latest standup, whether a created issue came out
//! as requested, and where the next page of a listing is.
use vstd::prelude::*;
use vstd::string::*;

use crate::text::{
    chars_of, eq_ignore_ascii_case, eq_ignore_ascii_case_chars, opt_string_view, split_chars,
    split_on, string_from_chars, trim, trim_chars,
};

verus! {

/// A GitHub account: its login and its global node id.
#[derive(Clone, Debug, PartialEq, Eq)]
pub struct User {
    pub login: String,
    pub node_id: String,
}

impl DeepView for User {
    type V = User;

    open spec fn deep_view(&self) -> User {
        *self
    }
}

/// An open issue: its number and its title.
#[derive(Clone, Debug, PartialEq, Eq)]
pub struct OpenIssue {
    pub number: u64,
    pub title: String,
}

/// An issue as GitHub lists it.
pub struct ApiIssue {
    pub number: u64,
    pub title: String,
    /// The name of the issue's type, where it has one.
    pub issue_type: Option<String>,
    pub assignees: Vec<User>,
    /// Whether the entry is a pull request rather than an issue.
    pub is_pull_request: bool,
}

/// Whether the type named `actual` is the type `expected`: equal up to ASCII
/// case once both are trimmed.
pub open spec fn issue_type_matches(actual: Seq<char>, expected: Seq<char>) -> bool {
    eq_ignore_ascii_case(trim(actual), trim(expected))
}

/// Whether the type named `actual` is the type `expected` (see
/// `issue_type_matches`).
pub fn issue_type_matches_exec(actual: &str, expected: &str) -> (res: bool)
    ensures
        res == issue_type_matches(actual@, expected@),
{
    let a = trim_chars(&chars_of(actual));
    let e = trim_chars(&chars_of(expected));
    eq_ignore_ascii_case_chars(&a, &e)
}

/// The first of `names` that names the type `expected`.
pub open spec fn find_issue_type(names: Seq<String>, expected: Seq<char>) -> Option<Seq<char>>
    decreases names.len(),
{
    if names.len() == 0 {
        None
    } else if issue_type_matches(names[0]@, expected) {
        Some(names[0]@)
    } else {
        find_issue_type(names.drop_first(), expected)
    }
}

/// The repository's name for the issue type `expected` among the issue
/// types `names` that it has: the first that matches, as GitHub spells it.
pub fn select_issue_type(names: &Vec<String>, expected: &str) -> (res: Option<String>)
    ensures
        opt_string_view(res) == find_issue_type(names@, expected@),
{
    let mut i: usize = 0;
    assert(names@.skip(0) =~= names@);
    while i < names.len()
        invariant
            i <= names.len(),
            find_issue_type(names@, expected@) == find_issue_type(names@.skip(i as int), expected@),
        decreases names.len() - i,
    {
        assert(names@.skip(i as int).drop_first() =~= names@.skip(i as int + 1));
        assert(names@.skip(i as int)[0] == names@[i as int]);
        if issue_type_matches_exec(names[i].as_str(), expected) {
            return Some(names[i].clone());
        }
        i = i + 1;
    }
    None
}

/// Whether `issue` is an issue, not a pull request, of the type `issue_type`.
pub open spec fn is_standup_issue(issue: ApiIssue, issue_type: Seq<char>) -> bool {
    &&& !issue.is_pull_request
    &&& issue.issue_type matches Some(actual) && issue_type_matches(actual@, issue_type)
}

/// The first of `issues` that is an issue of the type `issue_type`.
pub open spec fn find_standup_issue(issues: Seq<ApiIssue>, issue_type: Seq<char>) -> Option<ApiIssue>
    decreases issues.len(),
{
    if issues.len() == 0 {
        None
    } else if is_standup_issue(issues[0], issue_type) {
        Some(issues[0])
    } else {
        find_standup_issue(issues.drop_first(), issue_type)
    }
}

/// Whether `issue` is an issue of the type `issue_type` (see
/// `is_standup_issue`).
fn is_standup_issue_exec(issue: &ApiIssue, issue_type: &str) -> (res: bool)
    ensures
        res == is_standup_issue(*issue, issue_type@),
{
    if issue.is_pull_request {
        return false;
    }
    match &issue.issue_type {
        Some(actual) => issue_type_matches_exec(actual.as_str(), issue_type),
        None => false,
    }
}

/// The latest open standup issue among `issues`, which GitHub lists newest
/// first: the first that is an issue, not a pull request, of the type
/// `issue_type`.
pub fn select_latest_open_issue(issues: &Vec<ApiIssue>, issue_type: &str) -> (res: Option<
    OpenIssue,
>)
    ensures
        match find_standup_issue(issues@, issue_type@) {
            Some(issue) => res matches Some(open) && open.number == issue.number && open.title@
                == issue.title@,
            None => res is None,
        },
{
    let mut i: usize = 0;
    assert(issues@.skip(0) =~= issues@);
    while i < issues.len()
        invariant
            i <= issues.len(),
            find_standup_issue(issues@, issue_type@) == find_standup_issue(
                issues@.skip(i as int),
                issue_type@,
            ),
        decreases issues.len() - i,
    {
        assert(issues@.skip(i as int).drop_first() =~= issues@.skip(i as int + 1));
        assert(issues@.skip(i as int)[0] == issues@[i as int]);
        if is_standup_issue_exec(&issues[i], issue_type) {
            return Some(OpenIssue { number: issues[i].number, title: issues[i].title.clone() });
        }
        i = i + 1;
    }
    None
}

/// How a created issue differs from the one requested.
#[derive(Debug, PartialEq, Eq)]
pub enum CreatedIssueError {
    UnexpectedTitle,
    MissingIssueType,
    MissingAssignees,
}

/// Whether one of `users` has a login equal to `login` up to ASCII case.
pub open spec fn has_login(users: Seq<User>, login: Seq<char>) -> bool {
    exists|k: int| 0 <= k < users.len() && eq_ignore_ascii_case(#[trigger] users[k].login@, login)
}

/// Whether every one of `logins` is among the logins of `users`, up to
/// ASCII case.
pub open spec fn has_all_logins(users: Seq<User>, logins: Seq<Seq<char>>) -> bool {
    forall|j: int| 0 <= j < logins.len() ==> has_login(users, #[trigger] logins[j])
}

/// How the issue `created` differs from the one requested, checked in this
/// order: its title, its type, its assignees; `None` where it does not.
pub open spec fn created_issue_problem(
    created: ApiIssue,
    title: Seq<char>,
    issue_type: Seq<char>,
    assignees: Seq<Seq<char>>,
) -> Option<CreatedIssueError> {
    if created.title@ != title {
        Some(CreatedIssueError::UnexpectedTitle)
    } else if !(created.issue_type matches Some(actual) && issue_type_matches(
        actual@,
        issue_type,
    )) {
        Some(CreatedIssueError::MissingIssueType)
    } else if !has_all_logins(created.assignees@, assignees) {
        Some(CreatedIssueError::MissingAssignees)
    } else {
        None
    }
}

/// Whether the created issue's type names the type `issue_type`: equal up to
/// ASCII case once both are trimmed.
pub open spec fn created_with_type(created: ApiIssue, issue_type: Seq<char>) -> bool {
    created.issue_type matches Some(actual) && eq_ignore_ascii_case(trim(actual@), trim(issue_type))
}

/// Whether `login` is, up to ASCII case, the login of some assignee of
/// `created`.
pub open spec fn carries_assignee(created: ApiIssue, login: Seq<char>) -> bool {
    exists|k: int|
        0 <= k < created.assignees@.len() && eq_ignore_ascii_case(
            #[trigger] created.assignees@[k].login@,
            login,
        )
}

/// Whether every one of `logins` is, up to ASCII case, the login of some
/// assignee of `created`.
pub open spec fn assigned_to_all(created: ApiIssue, logins: Seq<Seq<char>>) -> bool {
    forall|j: int| 0 <= j < logins.len() ==> carries_assignee(created, #[trigger] logins[j])
}

/// A created issue is accepted exactly when it has the requested title, a
/// type that names the requested type, and, up to ASCII case, every
/// requested login among its assignees; otherwise the first difference in
/// that order is reported. In particular one requested login that no
/// assignee carries is enough to refuse it.
pub proof fn lemma_created_issue_check(
    created: ApiIssue,
    title: Seq<char>,
    issue_type: Seq<char>,
    logins: Seq<Seq<char>>,
)
    ensures
        created_issue_problem(created, title, issue_type, logins) is None <==> (created.title@
            == title && created_with_type(created, issue_type) && assigned_to_all(created, logins)),
        created.title@ != title ==> created_issue_problem(created, title, issue_type, logins)
            == Some(CreatedIssueError::UnexpectedTitle),
        created.title@ == title && !created_with_type(created, issue_type) ==> created_issue_problem(
            created,
            title,
            issue_type,
            logins,
        ) == Some(CreatedIssueError::MissingIssueType),
        forall|j: int|
            created.title@ == title && created_with_type(created, issue_type) && 0 <= j
                < logins.len() && !carries_assignee(created, #[trigger] logins[j])
                ==> created_issue_problem(created, title, issue_type, logins) == Some(
                CreatedIssueError::MissingAssignees,
            ),
{
    let users = created.assignees@;
    assert forall|login: Seq<char>| has_login(users, login) == carries_assignee(created, login) by {
        if has_login(users, login) {
            let k = choose|k: int|
                0 <= k < users.len() && eq_ignore_ascii_case(#[trigger] users[k].login@, login);
            assert(created.assignees@[k].login@ == users[k].login@);
        }
    }
    assert(has_all_logins(users, logins) == assigned_to_all(created, logins));
    assert forall|j: int|
        created.title@ == title && created_with_type(created, issue_type) && 0 <= j
            < logins.len() && !carries_assignee(created, #[trigger] logins[j]) implies
        created_issue_problem(created, title, issue_type, logins) == Some(
        CreatedIssueError::MissingAssignees,
    ) by {
        assert(!has_login(users, logins[j]));
    }
}

/// Whether one of `users` has a login equal to `login` up to ASCII case.
fn has_login_exec(users: &Vec<User>, login: &String) -> (res: bool)
    ensures
        res == has_login(users@, login@),
{
    let wanted = chars_of(login.as_str());
    let mut k: usize = 0;
    while k < users.len()
        invariant
            k <= users.len(),
            wanted@ == login@,
            forall|m: int|
                0 <= m < k ==> !eq_ignore_ascii_case(#[trigger] users@[m].login@, login@),
        decreases users.len() - k,
    {
        let actual = chars_of(users[k].login.as_str());
        if eq_ignore_ascii_case_chars(&actual, &wanted) {
            return true;
        }
        k = k + 1;
    }
    false
}

/// Checks that GitHub created the issue `created` as requested: with the
/// title `title`, of the type `issue_type`, and assigned to each of
/// `assignees`.
pub fn verify_created_issue(
    created: &ApiIssue,
    title: &str,
    issue_type: &str,
    assignees: &Vec<String>,
) -> (res: Result<(), CreatedIssueError>)
    ensures
        match created_issue_problem(*created, title@, issue_type@, assignees.deep_view()) {
            Some(problem) => res == Err::<(), CreatedIssueError>(problem),
            None => res is Ok,
        },
{
    let created_title = chars_of(created.title.as_str());
    let wanted_title = chars_of(title);
    if !crate::text::chars_equal(&created_title, &wanted_title) {
        return Err(CreatedIssueError::UnexpectedTitle);
    }
    let typed = match &created.issue_type {
        Some(actual) => issue_type_matches_exec(actual.as_str(), issue_type),
        None => false,
    };
    if !typed {
        return Err(CreatedIssueError::MissingIssueType);
    }
    let mut j: usize = 0;
    while j < assignees.len()
        invariant
            j <= assignees.len(),
            created.title@ == title@,
            created.issue_type matches Some(actual) && issue_type_matches(actual@, issue_type@),
            forall|m: int|
                0 <= m < j ==> has_login(created.assignees@, #[trigger] assignees.deep_view()[m]),
        decreases assignees.len() - j,
    {
        assert(assignees.deep_view()[j as int] == assignees@[j as int]@);
        if !has_login_exec(&created.assignees, &assignees[j]) {
            assert(assignees.deep_view()[j as int] == assignees@[j as int]@);
            assert(!has_login(created.assignees@, assignees.deep_view()[j as int]));
            assert(!has_all_logins(created.assignees@, assignees.deep_view()));
            return Err(CreatedIssueError::MissingAssignees);
        }
        j = j + 1;
    }
    Ok(())
}

impl CreatedIssueError {
    /// The text that reports this difference.
    pub open spec fn spec_message(&self) -> Seq<char> {
        match self {
            CreatedIssueError::UnexpectedTitle => "GitHub created an issue with an unexpected title"@,
            CreatedIssueError::MissingIssueType => "GitHub did not apply the requested issue type"@,
            CreatedIssueError::MissingAssignees => "GitHub did not apply all requested assignees"@,
        }
    }

    /// The text that reports this difference.
    pub fn message(&self) -> (res: String)
        ensures
            res@ == self.spec_message(),
    {
        match self {
            CreatedIssueError::UnexpectedTitle => String::from_str(
                "GitHub created an issue with an unexpected title",
            ),
            CreatedIssueError::MissingIssueType => String::from_str(
                "GitHub did not apply the requested issue type",
            ),
            CreatedIssueError::MissingAssignees => String::from_str(
                "GitHub did not apply all requested assignees",
            ),
        }
    }
}

/// Whether the byte `b` may stand in a header value read as text: visible
/// ASCII or a tab, as `HeaderValue::to_str` of `http` decides it.
pub open spec fn is_visible_ascii(b: u8) -> bool {
    (32 <= b && b < 127) || b == 9
}

/// The text of a header value, where all its bytes are visible ASCII.
pub open spec fn header_text(bytes: Seq<u8>) -> Option<Seq<char>> {
    if forall|i: int| 0 <= i < bytes.len() ==> is_visible_ascii(#[trigger] bytes[i]) {
        Some(bytes.map_values(|b: u8| b as char))
    } else {
        None
    }
}

/// Whether the part of a link entry says that it links the next page.
pub open spec fn is_next_relation(part: Seq<char>) -> bool {
    trim(part) == "rel=\"next\""@
}

/// The parts of a link entry: the trimmed entry split at semicolons.
pub open spec fn entry_parts(entry: Seq<char>) -> Seq<Seq<char>> {
    split_on(trim(entry), seq![';'])
}

/// Whether some part after the first of `parts` marks the next page.
pub open spec fn marks_next(parts: Seq<Seq<char>>) -> bool {
    exists|j: int| 1 <= j < parts.len() && is_next_relation(#[trigger] parts[j])
}

/// The target part of the first of `entries` that links the next page.
pub open spec fn next_entry_target(entries: Seq<Seq<char>>) -> Option<Seq<char>>
    decreases entries.len(),
{
    if entries.len() == 0 {
        None
    } else if marks_next(entry_parts(entries[0])) {
        Some(entry_parts(entries[0])[0])
    } else {
        next_entry_target(entries.drop_first())
    }
}

/// The address inside the angle brackets of a trimmed link target.
pub open spec fn bracketed_target(target: Seq<char>) -> Option<Seq<char>> {
    let t = trim(target);
    if t.len() >= 2 && t[0] == '<' && t.last() == '>' {
        Some(t.subrange(1, t.len() - 1))
    } else {
        None
    }
}

/// The origin of the address `url`: `None` where `url` is no URL, `Some(None)`
/// for an opaque origin, and the ASCII serialization of a tuple origin.
pub uninterp spec fn spec_url_origin(url: Seq<char>) -> Option<Option<Seq<char>>>;

/// The value of an optional origin.
pub open spec fn origin_view(origin: Option<Option<String>>) -> Option<Option<Seq<char>>> {
    match origin {
        Some(Some(s)) => Some(Some(s@)),
        Some(None) => Some(None),
        None => None,
    }
}

/// `Url::parse` of `url` (through `reqwest`), then `Url::origin`: the origin
/// of `url` as `spec_url_origin` describes it. The claim is that it depends on
/// the text of `url` alone.
#[verifier::external_body]
fn url_origin(url: &str) -> (res: Option<Option<String>>)
    ensures
        origin_view(res) == spec_url_origin(url@),
{
    match reqwest::Url::parse(url) {
        Ok(parsed) => {
            let origin = parsed.origin();
            if origin.is_tuple() {
                Some(Some(origin.ascii_serialization()))
            } else {
                Some(None)
            }
        },
        Err(_) => None,
    }
}

/// Why a pagination link was refused.
#[derive(Debug, PartialEq, Eq)]
pub enum PageLinkError {
    /// The `Link` header holds bytes other than visible ASCII.
    NotText,
    /// The next page's target is not enclosed in angle brackets.
    Malformed,
    /// The next page's target is no URL.
    Invalid,
    /// The next page lies at another origin than the API root.
    ChangedOrigin,
}

/// Whether the next page at `url`, whose origin is `origin`, may be
/// followed from the API root, whose origin is `root_origin`: only where
/// `url` is a URL and both origins are the same tuple origin.
pub open spec fn next_link_outcome(
    url: Seq<char>,
    origin: Option<Option<Seq<char>>>,
    root_origin: Option<Option<Seq<char>>>,
) -> Result<Option<Seq<char>>, PageLinkError> {
    match origin {
        None => Err(PageLinkError::Invalid),
        Some(origin) => if origin is Some && root_origin == Some(origin) {
            Ok(Some(url))
        } else {
            Err(PageLinkError::ChangedOrigin)
        },
    }
}

/// Whether the next page at `url` may be followed (see `next_link_outcome`),
/// given its origin and the API root's, as `url_origin` reports them.
pub fn follow_next_link(
    url: String,
    origin: Option<Option<String>>,
    root_origin: Option<Option<String>>,
) -> (res: Result<Option<String>, PageLinkError>)
    ensures
        page_outcome(res) == next_link_outcome(url@, origin_view(origin), origin_view(root_origin)),
{
    match (origin, root_origin) {
        (None, _) => Err(PageLinkError::Invalid),
        (Some(Some(next_origin)), Some(Some(root))) => {
            if next_origin == root {
                Ok(Some(url))
            } else {
                Err(PageLinkError::ChangedOrigin)
            }
        },
        _ => Err(PageLinkError::ChangedOrigin),
    }
}

/// The next page that the `Link` header `link` names, relative to the API
/// root `api_root`; `Ok(None)` where it names none.
pub open spec fn expected_next_page(link: Option<Seq<u8>>, api_root: Seq<char>) -> Result<
    Option<Seq<char>>,
    PageLinkError,
> {
    match link {
        None => Ok(None),
        Some(bytes) => match header_text(bytes) {
            None => Err(PageLinkError::NotText),
            Some(text) => match next_entry_target(split_on(text, seq![','])) {
                None => Ok(None),
                Some(target) => match bracketed_target(target) {
                    None => Err(PageLinkError::Malformed),
                    Some(url) => next_link_outcome(
                        url,
                        spec_url_origin(url),
                        spec_url_origin(api_root),
                    ),
                },
            },
        },
    }
}

/// A next page is only ever followed at the API root's own origin, and a
/// listing without a `Link` header has no next page.
pub proof fn lemma_next_page_stays_at_origin(link: Option<Seq<u8>>, api_root: Seq<char>)
    ensures
        expected_next_page(link, api_root) matches Ok(Some(url)) ==> spec_url_origin(url) matches Some(
            Some(origin),
        ) && spec_url_origin(api_root) == Some(Some(origin)),
        link is None ==> expected_next_page(link, api_root) == Ok::<
            Option<Seq<char>>,
            PageLinkError,
        >(None),
{
}

/// The value of a pagination outcome.
pub open spec fn page_outcome(res: Result<Option<String>, PageLinkError>) -> Result<
    Option<Seq<char>>,
    PageLinkError,
> {
    match res {
        Ok(next) => Ok(opt_string_view(next)),
        Err(e) => Err(e),
    }
}

/// The text of the header value `bytes` (see `header_text`).
fn header_text_exec(bytes: &Vec<u8>) -> (res: Option<Vec<char>>)
    ensures
        match header_text(bytes@) {
            Some(text) => res matches Some(v) && v@ == text,
            None => res is None,
        },
{
    let mut chars: Vec<char> = Vec::new();
    let mut i: usize = 0;
    while i < bytes.len()
        invariant
            i <= bytes.len(),
            forall|k: int| 0 <= k < i ==> is_visible_ascii(#[trigger] bytes@[k]),
            chars@ =~= bytes@.take(i as int).map_values(|b: u8| b as char),
        decreases bytes.len() - i,
    {
        let b = bytes[i];
        if !((32 <= b && b < 127) || b == 9) {
            return None;
        }
        chars.push(b as char);
        assert(bytes@.take(i as int + 1).map_values(|b: u8| b as char) =~= bytes@.take(
            i as int,
        ).map_values(|b: u8| b as char).push(b as char));
        i = i + 1;
    }
    assert(bytes@.take(bytes.len() as int) =~= bytes@);
    Some(chars)
}

/// Whether some part after the first of `parts` marks the next page.
fn marks_next_exec(parts: &Vec<Vec<char>>) -> (res: bool)
    ensures
        res == marks_next(parts.deep_view()),
{
    let wanted = chars_of("rel=\"next\"");
    let mut j: usize = 1;
    while j < parts.len()
        invariant
            1 <= j,
            wanted@ == "rel=\"next\""@,
            forall|m: int|
                1 <= m < j && m < parts@.len() ==> !is_next_relation(
                    #[trigger] parts.deep_view()[m],
                ),
        decreases parts.len() - j,
    {
        let part = trim_chars(&parts[j]);
        assert(parts.deep_view()[j as int] == parts@[j as int]@);
        if crate::text::chars_equal(&part, &wanted) {
            return true;
        }
        j = j + 1;
    }
    false
}

/// The target of the first entry of the `Link` header text `text` that
/// links the next page (see `next_entry_target`).
fn next_link_target(text: &Vec<char>) -> (res: Option<Vec<char>>)
    ensures
        match next_entry_target(split_on(text@, seq![','])) {
            Some(target) => res matches Some(v) && v@ == target,
            None => res is None,
        },
{
    let commas: Vec<char> = vec![','];
    let semicolons: Vec<char> = vec![';'];
    assert(commas@ =~= seq![',']);
    assert(semicolons@ =~= seq![';']);
    let entries = split_chars(text, &commas);
    let ghost entries_view = split_on(text@, seq![',']);
    let mut i: usize = 0;
    assert(entries_view.skip(0) =~= entries_view);
    while i < entries.len()
        invariant
            i <= entries.len(),
            entries@.len() == entries_view.len(),
            forall|k: int| 0 <= k < entries@.len() ==> #[trigger] entries@[k]@ == entries_view[k],
            next_entry_target(entries_view) == next_entry_target(entries_view.skip(i as int)),
            semicolons@ == seq![';'],
            entries_view == split_on(text@, seq![',']),
        decreases entries.len() - i,
    {
        assert(entries_view.skip(i as int).drop_first() =~= entries_view.skip(i as int + 1));
        assert(entries_view.skip(i as int)[0] == entries_view[i as int]);
        let trimmed = trim_chars(&entries[i]);
        let parts = split_chars(&trimmed, &semicolons);
        assert forall|k: int| 0 <= k < parts@.len() implies #[trigger] parts.deep_view()[k]
            == entry_parts(entries_view[i as int])[k] by {
            assert(parts.deep_view()[k] == parts@[k]@);
        }
        assert(parts.deep_view() =~= entry_parts(entries_view[i as int]));
        if marks_next_exec(&parts) {
            proof {
                crate::text::lemma_split_on_nonempty(trimmed@, seq![';']);
            }
            let first = parts[0].clone();
            assert(first@ == parts@[0]@);
            assert(parts.deep_view()[0] == parts@[0]@);
            return Some(first);
        }
        i = i + 1;
    }
    None
}

/// The address inside the angle brackets of a link target (see
/// `bracketed_target`).
fn bracketed_target_exec(target: &Vec<char>) -> (res: Option<Vec<char>>)
    ensures
        match bracketed_target(target@) {
            Some(url) => res matches Some(v) && v@ == url,
            None => res is None,
        },
{
    let t = trim_chars(target);
    let n = t.len();
    if n >= 2 && t[0] == '<' && t[n - 1] == '>' {
        let mut inner: Vec<char> = Vec::new();
        let mut k: usize = 1;
        while k < n - 1
            invariant
                1 <= k <= n - 1,
                n == t@.len(),
                inner@ == t@.subrange(1, k as int),
            decreases n - 1 - k,
        {
            inner.push(t[k]);
            assert(t@.subrange(1, k + 1) =~= t@.subrange(1, k as int).push(t@[k as int]));
            k = k + 1;
        }
        Some(inner)
    } else {
        None
    }
}

/// The next page that the `Link` header `link` names, relative to the API
/// root `api_root` (see `expected_next_page`): the first entry whose
/// parameters include `rel="next"` gives it, its target in angle brackets,
/// and it must lie at the API root's origin.
pub fn next_page(link: Option<Vec<u8>>, api_root: &str) -> (res: Result<
    Option<String>,
    PageLinkError,
>)
    ensures
        page_outcome(res) == expected_next_page(
            match link {
                Some(bytes) => Some(bytes@),
                None => None,
            },
            api_root@,
        ),
{
    let bytes = match link {
        Some(bytes) => bytes,
        None => return Ok(None),
    };
    let text = match header_text_exec(&bytes) {
        Some(text) => text,
        None => return Err(PageLinkError::NotText),
    };
    let target = match next_link_target(&text) {
        Some(target) => target,
        None => return Ok(None),
    };
    let url_chars = match bracketed_target_exec(&target) {
        Some(url) => url,
        None => return Err(PageLinkError::Malformed),
    };
    let url = string_from_chars(&url_chars);
    let origin = url_origin(url.as_str());
    let root_origin = url_origin(api_root);
    follow_next_link(url, origin, root_origin)
}

/// Whether the character `c` may stand in a header value: its UTF-8 bytes
/// all pass `HeaderValue::from_str` of `http` (`b >= 32 && b != 127` or a
/// tab); every byte of a character beyond ASCII is at least 128.
pub open spec fn header_char_ok(c: char) -> bool {
    c == '\t' || (c as u32 >= 32 && c as u32 != 127)
}

/// Whether `Bearer ` and the token `token` make a valid header value, as
/// the `Authorization` header of every request needs.
pub fn bearer_header_is_valid(token: &str) -> (res: bool)
    ensures
        res == (forall|i: int|
            0 <= i < ("Bearer "@ + token@).len() ==> header_char_ok(
                #[trigger] ("Bearer "@ + token@)[i],
            )),
{
    let prefix = chars_of("Bearer ");
    let rest = chars_of(token);
    let ghost value = "Bearer "@ + token@;
    let mut i: usize = 0;
    while i < prefix.len()
        invariant
            i <= prefix.len(),
            prefix@ == "Bearer "@,
            value == "Bearer "@ + token@,
            forall|k: int| 0 <= k < i ==> header_char_ok(#[trigger] value[k]),
        decreases prefix.len() - i,
    {
        let c = prefix[i];
        assert(value[i as int] == c);
        if !(c == '\t' || (c as u32 >= 32 && c as u32 != 127)) {
            return false;
        }
        i = i + 1;
    }
    let mut j: usize = 0;
    while j < rest.len()
        invariant
            j <= rest.len(),
            prefix@ == "Bearer "@,
            rest@ == token@,
            value == "Bearer "@ + token@,
            forall|k: int| 0 <= k < prefix.len() + j ==> header_char_ok(#[trigger] value[k]),
        decreases rest.len() - j,
    {
        let c = rest[j];
        assert(value[prefix.len() + j] == c);
        if !(c == '\t' || (c as u32 >= 32 && c as u32 != 127)) {
            return false;
        }
        j = j + 1;
    }
    true
}

/// The URL `root` with its path replaced by `segments` after any empty last
/// segment is dropped, each segment escaped as a path segment; `None` where
/// `root` is no URL that can take a path.
pub uninterp spec fn spec_url_with_path(root: Seq<char>, segments: Seq<Seq<char>>) -> Option<Seq<char>>;

/// `Url::parse` of `root` (through `reqwest`), then `path_segments_mut`,
/// `pop_if_empty` and `extend` with `segments`, serialized: the URL that
/// `spec_url_with_path` names. The claim is that it depends on the two
/// arguments alone.
#[verifier::external_body]
fn url_with_path(root: &str, segments: &Vec<String>) -> (res: Option<String>)
    ensures
        opt_string_view(res) == spec_url_with_path(root@, segments.deep_view()),
{
    let mut url = reqwest::Url::parse(root).ok()?;
    url.path_segments_mut().ok()?.pop_if_empty().extend(segments);
    Some(url.into())
}

/// The URL `url` with the form-encoded pairs `pairs` appended to its query;
/// `None` where `url` is no URL.
pub uninterp spec fn spec_url_with_query(url: Seq<char>, pairs: Seq<(Seq<char>, Seq<char>)>) -> Option<
    Seq<char>,
>;

/// `Url::parse` of `url` (through `reqwest`), then `query_pairs_mut` and
/// `extend_pairs` with `pairs`, serialized: the URL that
/// `spec_url_with_query` names. The claim is that it depends on the two
/// arguments alone.
#[verifier::external_body]
fn url_with_query(url: &str, pairs: &Vec<(String, String)>) -> (res: Option<String>)
    ensures
        opt_string_view(res) == spec_url_with_query(url@, pairs.deep_view()),
{
    let mut parsed = reqwest::Url::parse(url).ok()?;
    parsed.query_pairs_mut().extend_pairs(pairs);
    Some(parsed.into())
}

/// The URL of a request: `root` with the path `segments` and, where there
/// are any, the query pairs `query`.
pub open spec fn request_url(
    root: Seq<char>,
    segments: Seq<Seq<char>>,
    query: Seq<(Seq<char>, Seq<char>)>,
) -> Option<Seq<char>> {
    match spec_url_with_path(root, segments) {
        None => None,
        Some(url) => if query.len() == 0 {
            Some(url)
        } else {
            spec_url_with_query(url, query)
        },
    }
}

/// The URL of a request (see `request_url`).
pub fn build_request_url(root: &str, segments: &Vec<String>, query: &Vec<(String, String)>) -> (res:
    Option<String>)
    ensures
        opt_string_view(res) == request_url(root@, segments.deep_view(), query.deep_view()),
{
    match url_with_path(root, segments) {
        None => None,
        Some(url) => if query.len() == 0 {
            Some(url)
        } else {
            url_with_query(url.as_str(), query)
        },
    }
}

impl PageLinkError {
    /// The text that reports this error.
    pub open spec fn spec_message(&self) -> Seq<char> {
        match self {
            PageLinkError::NotText => "GitHub pagination Link header was not valid text"@,
            PageLinkError::Malformed => "GitHub pagination next link was malformed"@,
            PageLinkError::Invalid => "GitHub pagination next link was invalid"@,
            PageLinkError::ChangedOrigin => "GitHub pagination next link changed API origin"@,
        }
    }

    /// The text that reports this error.
    pub fn message(&self) -> (res: String)
        ensures
            res@ == self.spec_message(),
    {
        match self {
            PageLinkError::NotText => String::from_str(
                "GitHub pagination Link header was not valid text",
            ),
            PageLinkError::Malformed => String::from_str("GitHub pagination next link was malformed"),
            PageLinkError::Invalid => String::from_str("GitHub pagination next link was invalid"),
            PageLinkError::ChangedOrigin => String::from_str(
                "GitHub pagination next link changed API origin",
            ),
        }
    }
}

} // verus!
