use vstd::prelude::*;

use crate::security_fork::{
    is_advisory_fork_name, is_security_advisory_fork, lemma_fork_name_literal_shape,
};
use crate::text::{digit_char, texts};

verus! {

// ---------------------------------------------------------------------------
// Request bodies
// ---------------------------------------------------------------------------

/// The lowercase hexadecimal digit of `d` (below 16).
pub open spec fn hex_lower(d: u32) -> char {
    if d < 10 {
        digit_char(d as nat)
    } else if d == 10 {
        'a'
    } else if d == 11 {
        'b'
    } else if d == 12 {
        'c'
    } else if d == 13 {
        'd'
    } else if d == 14 {
        'e'
    } else {
        'f'
    }
}

/// How serde_json writes `c` inside a JSON string: `\"` and `\\` for quote
/// and backslash, `\b`, `\t`, `\n`, `\f` and `\r` for those five control
/// characters, `\u00xx` (lowercase hexadecimal) for the other characters below
/// U+0020, and every other character as it stands.
pub open spec fn json_char_escape(c: char) -> Seq<char> {
    let u = c as u32;
    if u == 0x22 {
        seq!['\\', '"']
    } else if u == 0x5C {
        seq!['\\', '\\']
    } else if u == 0x08 {
        seq!['\\', 'b']
    } else if u == 0x09 {
        seq!['\\', 't']
    } else if u == 0x0A {
        seq!['\\', 'n']
    } else if u == 0x0C {
        seq!['\\', 'f']
    } else if u == 0x0D {
        seq!['\\', 'r']
    } else if u < 0x20 {
        seq!['\\', 'u', '0', '0', hex_lower(u / 16), hex_lower(u % 16)]
    } else {
        seq![c]
    }
}

/// The characters of `s` as escaped inside a JSON string.
pub open spec fn json_escaped(s: Seq<char>) -> Seq<char>
    decreases s.len(),
{
    if s.len() == 0 {
        Seq::empty()
    } else {
        json_char_escape(s[0]) + json_escaped(s.drop_first())
    }
}

/// What `serde_json::to_string` gives for the string `s`: `s` escaped and put
/// between quotes.
pub open spec fn json_string_text(s: Seq<char>) -> Seq<char> {
    seq!['"'] + json_escaped(s) + seq!['"']
}

/// Calls `serde_json::to_string` on a string. As the crate's source shows
/// (`format_escaped_str` with its `ESCAPE` table and `write_char_escape`), the
/// result is the string between quotes with the escapes of `json_char_escape`.
/// Serializing a string into memory cannot fail, so the error arm is never
/// taken.
#[verifier::external_body]
fn json_string(s: &str) -> (r: String)
    ensures
        r@ == json_string_text(s@),
{
    match serde_json::to_string(s) {
        Ok(text) => text,
        Err(_) => String::new(),
    }
}

/// serde_json writes every character from U+0020 on, other than the quote and
/// the backslash, as it stands, and escapes those two with a backslash.
pub proof fn lemma_json_escape_plain(c: char)
    ensures
        (c as u32) >= 0x20 && c != '"' && c != '\\' ==> json_char_escape(c) == seq![c],
        c == '"' ==> json_char_escape(c) == seq!['\\', '"'],
        c == '\\' ==> json_char_escape(c) == seq!['\\', '\\'],
        c == '\n' ==> json_char_escape(c) == seq!['\\', 'n'],
{
}

/// `b` with the prefix `x` removed, when `x + a == x + b` says the rests agree.
proof fn lemma_cancel_prefix(x: Seq<char>, a: Seq<char>, b: Seq<char>)
    requires
        x + a == x + b,
    ensures
        a == b,
{
    assert(a =~= (x + a).subrange(x.len() as int, (x + a).len() as int));
    assert(b =~= (x + b).subrange(x.len() as int, (x + b).len() as int));
}

/// The escape of a character can be read back: the escapes form a prefix code.
proof fn lemma_char_escape_unique(x: char, y: char, a: Seq<char>, b: Seq<char>)
    requires
        json_char_escape(x) + a == json_char_escape(y) + b,
    ensures
        x == y,
        a == b,
{
    let ex = json_char_escape(x);
    let ey = json_char_escape(y);
    let s = ex + a;
    let t = ey + b;
    assert(s[0] == ex[0] && t[0] == ey[0]);
    if ex.len() > 1 && ey.len() > 1 {
        assert(s[1] == ex[1] && t[1] == ey[1]);
        if ex.len() == 6 && ey.len() == 6 {
            assert(s[4] == ex[4] && t[4] == ey[4]);
            assert(s[5] == ex[5] && t[5] == ey[5]);
        }
    }
    assert(x == y);
    lemma_cancel_prefix(ex, a, b);
}

/// The escaped text of a string, followed by a closing quote, can be read
/// back: it gives the string and where the text after it starts.
proof fn lemma_json_escaped_unique(s1: Seq<char>, a: Seq<char>, s2: Seq<char>, b: Seq<char>)
    requires
        json_escaped(s1) + seq!['"'] + a == json_escaped(s2) + seq!['"'] + b,
    ensures
        s1 == s2,
        a == b,
    decreases s1.len(),
{
    let l = json_escaped(s1) + seq!['"'] + a;
    if s1.len() == 0 {
        assert(l[0] == '"');
        if s2.len() > 0 {
            let e = json_char_escape(s2[0]);
            assert(json_escaped(s2) == e + json_escaped(s2.drop_first()));
            assert(l[0] == e[0]);
        }
        assert(json_escaped(s2) =~= Seq::<char>::empty());
        lemma_cancel_prefix(seq!['"'], a, b);
    } else {
        let e1 = json_char_escape(s1[0]);
        assert(json_escaped(s1) == e1 + json_escaped(s1.drop_first()));
        if s2.len() == 0 {
            assert(l[0] == e1[0]);
            assert(false);
        }
        let e2 = json_char_escape(s2[0]);
        assert(json_escaped(s2) == e2 + json_escaped(s2.drop_first()));
        let r1 = json_escaped(s1.drop_first()) + seq!['"'] + a;
        let r2 = json_escaped(s2.drop_first()) + seq!['"'] + b;
        assert(l =~= e1 + r1);
        assert(json_escaped(s2) + seq!['"'] + b =~= e2 + r2);
        lemma_char_escape_unique(s1[0], s2[0], r1, r2);
        lemma_json_escaped_unique(s1.drop_first(), a, s2.drop_first(), b);
        assert(s1 =~= seq![s1[0]] + s1.drop_first());
        assert(s2 =~= seq![s2[0]] + s2.drop_first());
    }
}

/// A JSON string literal written by serde_json can be read back: the text
/// `json_string_text(s) + a` determines both `s` and `a`.
pub proof fn lemma_json_string_text_unique(s1: Seq<char>, a: Seq<char>, s2: Seq<char>, b: Seq<char>)
    requires
        json_string_text(s1) + a == json_string_text(s2) + b,
    ensures
        s1 == s2,
        a == b,
{
    let q = seq!['"'];
    assert(json_string_text(s1) + a =~= q + (json_escaped(s1) + q + a));
    assert(json_string_text(s2) + b =~= q + (json_escaped(s2) + q + b));
    lemma_cancel_prefix(q, json_escaped(s1) + q + a, json_escaped(s2) + q + b);
    lemma_json_escaped_unique(s1, a, s2, b);
}

/// The GraphQL query for the head commit of `org/repo`.
pub open spec fn head_commit_graphql(org: Seq<char>, repo: Seq<char>) -> Seq<char> {
    "query { repository(owner: \""@ + org + "\", name: \""@ + repo
        + "\") { defaultBranchRef { target { oid } } } }"@
}

/// The JSON body `{"query": ...}` of the head-commit request.
pub open spec fn spec_head_commit_query(org: Seq<char>, repo: Seq<char>) -> Seq<char> {
    "{\"query\":"@ + json_string_text(head_commit_graphql(org, repo)) + "}"@
}

/// The request body that asks GitHub for the commit at the head of the default
/// branch of `org/repo`.
pub fn head_commit_query(org: &str, repo: &str) -> (body: String)
    ensures
        body@ == spec_head_commit_query(org@, repo@),
{
    let mut inner = "query { repository(owner: \"".to_owned();
    inner.append(org);
    inner.append("\", name: \"");
    inner.append(repo);
    inner.append("\") { defaultBranchRef { target { oid } } } }");
    let mut body = "{\"query\":".to_owned();
    body.append(json_string(inner.as_str()).as_str());
    body.append("}");
    body
}

/// The GraphQL query for one page of the repositories of an organization.
pub const LIST_REPOS_GRAPHQL: &'static str = "query($org: String!, $cursor: String) { organization(login: $org) { repositories(first: 100, after: $cursor, isFork: false, isArchived: false) { nodes { name isPrivate workflows: object(expression: \"HEAD:.github/workflows\") { __typename } } pageInfo { hasNextPage endCursor } } } }";

/// A JSON string literal, or `null`.
pub open spec fn json_string_or_null(s: Option<Seq<char>>) -> Seq<char> {
    match s {
        Some(text) => json_string_text(text),
        None => "null"@,
    }
}

/// The part of the repository-list body before its variables: the same for
/// every organization and cursor.
pub open spec fn list_repos_body_prefix() -> Seq<char> {
    "{\"query\":"@ + json_string_text(LIST_REPOS_GRAPHQL@) + ",\"variables\":"@
}

/// The variables of the repository-list body: the cursor (or `null`) and the
/// organization as JSON strings.
pub open spec fn list_repos_variables(org: Seq<char>, cursor: Option<Seq<char>>) -> Seq<char> {
    "{\"cursor\":"@ + json_string_or_null(cursor) + ",\"org\":"@ + json_string_text(org) + "}"@
}

/// The repository-list body is the fixed query, then the variables object
/// holding the cursor and the organization, and the body determines both: two
/// bodies are equal exactly when their organizations and cursors are.
pub proof fn lemma_list_repos_query_shape(
    org1: Seq<char>,
    cursor1: Option<Seq<char>>,
    org2: Seq<char>,
    cursor2: Option<Seq<char>>,
)
    ensures
        spec_list_repos_query(org1, cursor1) == list_repos_body_prefix() + list_repos_variables(
            org1,
            cursor1,
        ) + "}"@,
        spec_list_repos_query(org1, cursor1) == spec_list_repos_query(org2, cursor2) <==> (org1
            == org2 && cursor1 == cursor2),
{
    let p = list_repos_body_prefix() + "{\"cursor\":"@;
    let m = ",\"org\":"@;
    let e = "}"@ + "}"@;
    assert(spec_list_repos_query(org1, cursor1) =~= list_repos_body_prefix()
        + list_repos_variables(org1, cursor1) + "}"@);
    if spec_list_repos_query(org1, cursor1) == spec_list_repos_query(org2, cursor2) {
        let rest1 = json_string_or_null(cursor1) + (m + (json_string_text(org1) + e));
        let rest2 = json_string_or_null(cursor2) + (m + (json_string_text(org2) + e));
        assert(spec_list_repos_query(org1, cursor1) =~= p + rest1);
        assert(spec_list_repos_query(org2, cursor2) =~= p + rest2);
        lemma_cancel_prefix(p, rest1, rest2);
        reveal_strlit("null");
        match (cursor1, cursor2) {
            (Some(c1), Some(c2)) => {
                lemma_json_string_text_unique(
                    c1,
                    m + (json_string_text(org1) + e),
                    c2,
                    m + (json_string_text(org2) + e),
                );
            },
            (Some(c1), None) => {
                assert(rest1[0] == json_string_text(c1)[0]);
                assert(rest2[0] == "null"@[0]);
            },
            (None, Some(c2)) => {
                assert(rest2[0] == json_string_text(c2)[0]);
                assert(rest1[0] == "null"@[0]);
            },
            (None, None) => {
                lemma_cancel_prefix("null"@, m + (json_string_text(org1) + e), m + (
                json_string_text(org2) + e));
            },
        }
        lemma_cancel_prefix(m, json_string_text(org1) + e, json_string_text(org2) + e);
        lemma_json_string_text_unique(org1, e, org2, e);
    }
}

/// The JSON body `{"query": ..., "variables": {"cursor": ..., "org": ...}}`
/// of a request for one page of repositories (keys in sorted order, as
/// serde_json orders the keys of its maps).
pub open spec fn spec_list_repos_query(org: Seq<char>, cursor: Option<Seq<char>>) -> Seq<char> {
    list_repos_body_prefix() + list_repos_variables(org, cursor) + "}"@
}

pub open spec fn opt_str_view(o: Option<&str>) -> Option<Seq<char>> {
    match o {
        Some(s) => Some(s@),
        None => None,
    }
}

/// The request body that asks for the page of repositories of `org` after
/// `cursor` (the first page when there is none).
pub fn list_repos_query(org: &str, cursor: Option<&str>) -> (body: String)
    ensures
        body@ == spec_list_repos_query(org@, opt_str_view(cursor)),
{
    let mut body = "{\"query\":".to_owned();
    body.append(json_string(LIST_REPOS_GRAPHQL).as_str());
    body.append(",\"variables\":");
    body.append("{\"cursor\":");
    match cursor {
        Some(c) => body.append(json_string(c).as_str()),
        None => body.append("null"),
    }
    body.append(",\"org\":");
    body.append(json_string(org).as_str());
    body.append("}");
    body.append("}");
    body
}

// ---------------------------------------------------------------------------
// Responses
// ---------------------------------------------------------------------------

/// The message of the error for a response that carries GraphQL errors, given
/// those errors as JSON text.
pub open spec fn graphql_errors_message(errors: Seq<char>) -> Seq<char> {
    "GitHub GraphQL API returned errors: "@ + errors
}

/// Fails when the response carried GraphQL errors (given as their JSON text).
pub fn check_graphql_errors(errors: &Option<String>) -> (r: Result<(), String>)
    ensures
        match errors {
            None => r is Ok,
            Some(text) => r matches Err(e) && e@ == graphql_errors_message(text@),
        },
{
    match errors {
        None => Ok(()),
        Some(text) => {
            let mut message = "GitHub GraphQL API returned errors: ".to_owned();
            message.append(text.as_str());
            Err(message)
        },
    }
}

/// The response to the head-commit query.
pub struct GraphQlResponse {
    pub data: Option<GraphQlData>,
    /// The `errors` field, as JSON text.
    pub errors: Option<String>,
}

pub struct GraphQlData {
    pub repository: Option<Repository>,
}

pub struct Repository {
    pub default_branch_ref: Option<BranchRef>,
}

pub struct BranchRef {
    pub target: Target,
}

pub struct Target {
    pub oid: String,
}

/// The commit at the head of the default branch, when the response names one.
pub open spec fn spec_head_commit_sha(response: GraphQlResponse) -> Option<Seq<char>> {
    match response.data {
        Some(data) => match data.repository {
            Some(repository) => match repository.default_branch_ref {
                Some(branch) => Some(branch.target.oid@),
                None => None,
            },
            None => None,
        },
        None => None,
    }
}

/// The response holds the repository, the repository has a default branch,
/// and so the branch's target commit is there.
pub open spec fn names_head_commit(response: GraphQlResponse) -> bool {
    &&& response.data is Some
    &&& response.data->Some_0.repository is Some
    &&& response.data->Some_0.repository->Some_0.default_branch_ref is Some
}

/// The head commit read from a response is the branch target's `oid`, all of
/// it and nothing else, whenever the response names one; otherwise there is
/// none.
pub proof fn lemma_head_commit_is_target_oid(response: GraphQlResponse)
    ensures
        names_head_commit(response) ==> spec_head_commit_sha(response) == Some(
            response.data->Some_0.repository->Some_0.default_branch_ref->Some_0.target.oid@,
        ),
        !names_head_commit(response) ==> spec_head_commit_sha(response) is None,
{
}

impl GraphQlResponse {
    /// The commit at the head of the default branch: present only when the
    /// response holds the repository and the repository has a default branch.
    pub fn head_commit_sha(self) -> (sha: Option<String>)
        ensures
            match sha {
                Some(s) => spec_head_commit_sha(self) == Some(s@),
                None => spec_head_commit_sha(self) is None,
            },
            names_head_commit(self) ==> (sha is Some && sha->Some_0@
                == self.data->Some_0.repository->Some_0.default_branch_ref->Some_0.target.oid@),
            !names_head_commit(self) ==> sha is None,
    {
        match self.data {
            Some(data) => match data.repository {
                Some(repository) => match repository.default_branch_ref {
                    Some(branch) => Some(branch.target.oid),
                    None => None,
                },
                None => None,
            },
            None => None,
        }
    }
}

/// The message of the error when the head commit could not be found.
pub open spec fn no_head_commit_message(org: Seq<char>, repo: Seq<char>) -> Seq<char> {
    "repository "@ + org + "/"@ + repo + " not found or has no default branch"@
}

/// The head commit of `org/repo`, read from GitHub's answer to
/// `head_commit_query(org, repo)`.
pub fn head_commit_from_response(response: GraphQlResponse, org: &str, repo: &str) -> (r: Result<
    String,
    String,
>)
    ensures
        response.errors is None && names_head_commit(response) ==> (r is Ok && r->Ok_0@
            == response.data->Some_0.repository->Some_0.default_branch_ref->Some_0.target.oid@),
        response.errors is None && !names_head_commit(response) ==> r is Err,
        response.errors is Some ==> r is Err,
        match response.errors {
            Some(text) => r matches Err(e) && e@ == graphql_errors_message(text@),
            None => match spec_head_commit_sha(response) {
                Some(sha) => r matches Ok(s) && s@ == sha,
                None => r matches Err(e) && e@ == no_head_commit_message(org@, repo@),
            },
        },
{
    let checked = check_graphql_errors(&response.errors);
    match checked {
        Err(e) => Err(e),
        Ok(()) => match response.head_commit_sha() {
            Some(sha) => Ok(sha),
            None => {
                let mut message = "repository ".to_owned();
                message.append(org);
                message.append("/");
                message.append(repo);
                message.append(" not found or has no default branch");
                Err(message)
            },
        },
    }
}

// ---------------------------------------------------------------------------
// Repositories of an organization
// ---------------------------------------------------------------------------

/// The Git object at `.github/workflows` in a repository's head commit.
pub struct GitObject {
    /// The GraphQL `__typename` of the object.
    pub typename: String,
}

/// One repository of an organization.
pub struct RepoNode {
    pub name: String,
    pub is_private: bool,
    pub workflows: Option<GitObject>,
}

/// The repository has a `.github/workflows` directory (a Git tree).
pub open spec fn spec_has_workflows_directory(node: RepoNode) -> bool {
    node.workflows matches Some(object) && object.typename@ == "Tree"@
}

impl RepoNode {
    pub fn has_workflows_directory(&self) -> (b: bool)
        ensures
            b == spec_has_workflows_directory(*self),
    {
        match &self.workflows {
            Some(object) => object.typename == "Tree".to_owned(),
            None => false,
        }
    }
}

/// A repository is listed when it has workflows and is not a temporary private
/// security-advisory fork.
pub open spec fn is_listed(node: RepoNode) -> bool {
    spec_has_workflows_directory(node) && !(node.is_private && is_advisory_fork_name(node.name@))
}

/// The names of the listed repositories among `nodes`, in order.
pub open spec fn listed_names(nodes: Seq<RepoNode>) -> Seq<Seq<char>>
    decreases nodes.len(),
{
    if nodes.len() == 0 {
        Seq::empty()
    } else if is_listed(nodes.last()) {
        listed_names(nodes.drop_last()).push(nodes.last().name@)
    } else {
        listed_names(nodes.drop_last())
    }
}

pub struct PageInfo {
    pub has_next_page: bool,
    pub end_cursor: Option<String>,
}

pub struct RepositoryConnection {
    pub nodes: Vec<RepoNode>,
    pub page_info: PageInfo,
}

pub struct OrgRepositories {
    pub repositories: RepositoryConnection,
}

pub struct OrgReposData {
    pub organization: Option<OrgRepositories>,
}

/// The response to one page of the repositories query.
pub struct OrgReposResponse {
    pub data: Option<OrgReposData>,
    /// The `errors` field, as JSON text.
    pub errors: Option<String>,
}

/// The message of the error when the organization does not exist.
pub open spec fn org_not_found_message(org: Seq<char>) -> Seq<char> {
    "organization "@ + org + " not found"@
}

/// The listing of an organization's repositories, one page at a time.
pub struct OrgRepoListing {
    pub org: String,
    /// The names listed so far.
    pub repos: Vec<String>,
    /// Where the next page starts.
    pub cursor: Option<String>,
}

impl OrgRepoListing {
    pub fn new(org: String) -> (l: Self)
        ensures
            l.org == org,
            l.repos@.len() == 0,
            l.cursor is None,
    {
        OrgRepoListing { org, repos: Vec::new(), cursor: None }
    }

    /// The body of the request for the next page.
    pub fn next_query(&self) -> (body: String)
        ensures
            body@ == spec_list_repos_query(
                self.org@,
                match self.cursor {
                    Some(c) => Some(c@),
                    None => None,
                },
            ),
    {
        match &self.cursor {
            Some(c) => list_repos_query(self.org.as_str(), Some(c.as_str())),
            None => list_repos_query(self.org.as_str(), None),
        }
    }

    /// Takes GitHub's answer for the page at the cursor: adds the listed
    /// repositories of the page and says whether another page follows.
    pub fn accept_page(&mut self, response: OrgReposResponse) -> (r: Result<bool, String>)
        ensures
            final(self).org == old(self).org,
            r is Err ==> final(self).repos@ == old(self).repos@ && final(self).cursor == old(
                self,
            ).cursor,
            match response.errors {
                Some(text) => r matches Err(e) && e@ == graphql_errors_message(text@),
                None => match response.data {
                    Some(OrgReposData { organization: Some(o) }) => {
                        let page = o.repositories;
                        &&& r == Ok::<bool, String>(page.page_info.has_next_page)
                        &&& texts(final(self).repos@) == texts(old(self).repos@) + listed_names(
                            page.nodes@,
                        )
                        &&& final(self).cursor == if page.page_info.has_next_page {
                            page.page_info.end_cursor
                        } else {
                            old(self).cursor
                        }
                    },
                    _ => r matches Err(e) && e@ == org_not_found_message(old(self).org@),
                },
            },
    {
        let checked = check_graphql_errors(&response.errors);
        if let Err(e) = checked {
            return Err(e);
        }
        let organization = match response.data {
            Some(data) => data.organization,
            None => None,
        };
        let page = match organization {
            Some(o) => o.repositories,
            None => {
                let mut message = "organization ".to_owned();
                message.append(self.org.as_str());
                message.append(" not found");
                return Err(message);
            },
        };
        let ghost start = texts(self.repos@);
        let nodes = &page.nodes;
        let mut i: usize = 0;
        while i < nodes.len()
            invariant
                i <= nodes@.len(),
                self.org == old(self).org,
                self.cursor == old(self).cursor,
                texts(self.repos@) == start + listed_names(nodes@.subrange(0, i as int)),
            decreases nodes@.len() - i,
        {
            let node = &nodes[i];
            let listed = node.has_workflows_directory() && !is_security_advisory_fork(
                node.name.as_str(),
                node.is_private,
            );
            proof {
                let p = nodes@.subrange(0, i + 1);
                assert(p.drop_last() =~= nodes@.subrange(0, i as int));
                assert(p.last() == nodes@[i as int]);
            }
            if listed {
                let ghost before = self.repos@;
                self.repos.push(node.name.clone());
                assert(texts(self.repos@) =~= texts(before).push(node.name@));
            }
            i += 1;
        }
        assert(nodes@.subrange(0, i as int) =~= nodes@);
        if page.page_info.has_next_page {
            self.cursor = page.page_info.end_cursor;
            Ok(true)
        } else {
            Ok(false)
        }
    }
}

/// Listing goes node by node: a node with a Git tree at `.github/workflows`
/// adds its name unless it is private and named as a security-advisory fork;
/// any other node adds nothing. In particular a private repository with
/// workflows whose name holds no `-ghsa-` is listed.
pub proof fn lemma_listed_names_push(nodes: Seq<RepoNode>, node: RepoNode)
    ensures
        (node.workflows is Some && node.workflows->Some_0.typename@ == "Tree"@ && !(node.is_private
            && is_advisory_fork_name(node.name@))) ==> listed_names(nodes.push(node))
            == listed_names(nodes).push(node.name@),
        (node.workflows is None || node.workflows->Some_0.typename@ != "Tree"@ || (node.is_private
            && is_advisory_fork_name(node.name@))) ==> listed_names(nodes.push(node))
            == listed_names(nodes),
        (node.workflows is Some && node.workflows->Some_0.typename@ == "Tree"@ && (forall|i: int|
            0 <= i && i + 6 <= node.name@.len() ==> #[trigger] node.name@.subrange(i, i + 6)
                != seq!['-', 'g', 'h', 's', 'a', '-'])) ==> listed_names(nodes.push(node))
            == listed_names(nodes).push(node.name@),
{
    assert(nodes.push(node).drop_last() =~= nodes);
    assert(nodes.push(node).last() == node);
    lemma_fork_name_literal_shape(node.name@, node.name@, node.name@);
}

/// `name` is the name of a listed repository among `nodes`.
pub open spec fn is_listed_name_of(nodes: Seq<RepoNode>, name: Seq<char>) -> bool {
    exists|i: int| 0 <= i < nodes.len() && is_listed(#[trigger] nodes[i]) && nodes[i].name@ == name
}

/// Every listed name belongs to a repository that has a workflows directory and
/// is not a temporary private security-advisory fork; when every repository
/// qualifies, every one is listed.
pub proof fn lemma_listed_names(nodes: Seq<RepoNode>)
    ensures
        forall|k: int|
            0 <= k < listed_names(nodes).len() ==> is_listed_name_of(
                nodes,
                #[trigger] listed_names(nodes)[k],
            ),
        listed_names(nodes).len() <= nodes.len(),
        (forall|i: int| 0 <= i < nodes.len() ==> is_listed(#[trigger] nodes[i])) ==> listed_names(
            nodes,
        ).len() == nodes.len(),
    decreases nodes.len(),
{
    if nodes.len() > 0 {
        let d = nodes.drop_last();
        lemma_listed_names(d);
        let l = listed_names(nodes);
        assert forall|k: int| 0 <= k < l.len() implies is_listed_name_of(nodes, #[trigger] l[k]) by {
            if k < listed_names(d).len() {
                assert(is_listed_name_of(d, listed_names(d)[k]));
                let i = choose|i: int|
                    0 <= i < d.len() && is_listed(#[trigger] d[i]) && d[i].name@ == listed_names(
                        d,
                    )[k];
                assert(nodes[i] == d[i]);
            } else {
                assert(nodes[nodes.len() - 1] == nodes.last());
            }
        }
        if forall|i: int| 0 <= i < nodes.len() ==> is_listed(#[trigger] nodes[i]) {
            assert forall|i: int| 0 <= i < d.len() implies is_listed(#[trigger] d[i]) by {
                assert(d[i] == nodes[i]);
            }
            assert(is_listed(nodes[nodes.len() - 1]));
        }
    }
}

} // verus!
