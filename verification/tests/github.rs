use crabwatch::github::{
    check_graphql_errors, head_commit_from_response, head_commit_query, list_repos_query,
    BranchRef, GitObject, GraphQlData, GraphQlResponse, OrgRepoListing, OrgRepositories,
    OrgReposData, OrgReposResponse, PageInfo, RepoNode, Repository, RepositoryConnection, Target,
};
use serde_json::Value;

fn errors_of(v: &Value) -> Option<String> {
    match v.get("errors") {
        None | Some(Value::Null) => None,
        Some(errors) => Some(serde_json::to_string(errors).unwrap()),
    }
}

fn response_from_json(json: &str) -> GraphQlResponse {
    let v: Value = serde_json::from_str(json).unwrap();
    let data = v.get("data").filter(|d| !d.is_null()).map(|d| GraphQlData {
        repository: d.get("repository").filter(|r| !r.is_null()).map(|r| Repository {
            default_branch_ref: r
                .get("defaultBranchRef")
                .filter(|b| !b.is_null())
                .map(|b| BranchRef {
                    target: Target {
                        oid: b["target"]["oid"].as_str().unwrap().to_string(),
                    },
                }),
        }),
    });
    GraphQlResponse {
        data,
        errors: errors_of(&v),
    }
}

fn node_from_value(v: &Value) -> RepoNode {
    RepoNode {
        name: v["name"].as_str().unwrap().to_string(),
        is_private: v["isPrivate"].as_bool().unwrap(),
        workflows: v.get("workflows").filter(|w| !w.is_null()).map(|w| GitObject {
            typename: w["__typename"].as_str().unwrap().to_string(),
        }),
    }
}

fn node_from_json(json: &str) -> RepoNode {
    let v: Value = serde_json::from_str(json).unwrap();
    node_from_value(&v)
}

#[test]
fn head_commit_query_snapshot() {
    assert_eq!(
        head_commit_query("rust-lang", "crabwatch"),
        r#"{"query":"query { repository(owner: \"rust-lang\", name: \"crabwatch\") { defaultBranchRef { target { oid } } } }"}"#
    );
}

#[test]
fn list_repos_query_snapshot() {
    assert_eq!(
        list_repos_query("rust-lang", Some("cursor")),
        r#"{"query":"query($org: String!, $cursor: String) { organization(login: $org) { repositories(first: 100, after: $cursor, isFork: false, isArchived: false) { nodes { name isPrivate workflows: object(expression: \"HEAD:.github/workflows\") { __typename } } pageInfo { hasNextPage endCursor } } } }","variables":{"cursor":"cursor","org":"rust-lang"}}"#
    );
}

#[test]
fn identifies_repository_with_workflows_directory() {
    let json = r#"{
        "name": "crabwatch",
        "isPrivate": false,
        "workflows": {
            "__typename": "Tree"
        }
    }"#;
    let node = node_from_json(json);
    assert!(node.has_workflows_directory());
}

#[test]
fn rejects_repository_without_workflows_directory() {
    let json = r#"{
        "name": "no-workflows",
        "isPrivate": false,
        "workflows": null
    }"#;
    let node = node_from_json(json);
    assert!(!node.has_workflows_directory());
}

#[test]
fn rejects_non_directory_at_workflows_path() {
    let json = r#"{
        "name": "workflows-is-a-file",
        "isPrivate": false,
        "workflows": {
            "__typename": "Blob"
        }
    }"#;
    let node = node_from_json(json);
    assert!(!node.has_workflows_directory());
}

#[test]
fn parses_successful_response() {
    let json = r#"{
        "data": {
            "repository": {
                "defaultBranchRef": {
                    "target": {
                        "oid": "abc123"
                    }
                }
            }
        }
    }"#;
    let parsed = response_from_json(json);
    let sha = parsed.head_commit_sha();
    assert_eq!(sha, Some("abc123".to_string()));
}

#[test]
fn parses_missing_repository_as_none() {
    let json = r#"{ "data": { "repository": null } }"#;
    let parsed = response_from_json(json);
    let sha = parsed.head_commit_sha();
    assert_eq!(sha, None);
}

#[test]
fn parses_errors_field() {
    let json = r#"{
        "data": null,
        "errors": [
            {
                "message": "Could not resolve to a Repository with the name 'rust-lang/does-not-exist'.",
                "type": "NOT_FOUND"
            }
        ]
    }"#;
    let parsed = response_from_json(json);
    assert!(parsed.errors.is_some());
}

#[test]
fn query_escapes_quotes_in_names() {
    assert_eq!(
        head_commit_query("a\"b", "c\\d"),
        r#"{"query":"query { repository(owner: \"a\"b\", name: \"c\\d\") { defaultBranchRef { target { oid } } } }"}"#
    );
}

#[test]
fn first_page_query_has_null_cursor() {
    let body = list_repos_query("o", None);
    assert!(body.ends_with(r#","variables":{"cursor":null,"org":"o"}}"#));
    let parsed: Value = serde_json::from_str(&body).unwrap();
    assert_eq!(parsed["variables"]["org"], "o");
    assert!(parsed["variables"]["cursor"].is_null());
}

#[test]
fn head_commit_errors() {
    let with_errors = response_from_json(r#"{"data": null, "errors": [{"message": "x"}]}"#);
    assert_eq!(
        head_commit_from_response(with_errors, "o", "r").unwrap_err(),
        r#"GitHub GraphQL API returned errors: [{"message":"x"}]"#
    );
    let missing = response_from_json(r#"{ "data": { "repository": null } }"#);
    assert_eq!(
        head_commit_from_response(missing, "o", "r").unwrap_err(),
        "repository o/r not found or has no default branch"
    );
    let no_branch = response_from_json(r#"{ "data": { "repository": { "defaultBranchRef": null } } }"#);
    assert!(head_commit_from_response(no_branch, "o", "r").is_err());
    let found = response_from_json(
        r#"{"data": {"repository": {"defaultBranchRef": {"target": {"oid": "f00"}}}}}"#,
    );
    assert_eq!(head_commit_from_response(found, "o", "r").unwrap(), "f00");
    assert!(check_graphql_errors(&None).is_ok());
}

fn page(nodes: Vec<RepoNode>, has_next_page: bool, end_cursor: Option<&str>) -> OrgReposResponse {
    OrgReposResponse {
        data: Some(OrgReposData {
            organization: Some(OrgRepositories {
                repositories: RepositoryConnection {
                    nodes,
                    page_info: PageInfo {
                        has_next_page,
                        end_cursor: end_cursor.map(|c| c.to_string()),
                    },
                },
            }),
        }),
        errors: None,
    }
}

fn node(name: &str, is_private: bool, typename: Option<&str>) -> RepoNode {
    RepoNode {
        name: name.to_string(),
        is_private,
        workflows: typename.map(|t| GitObject {
            typename: t.to_string(),
        }),
    }
}

#[test]
fn listing_keeps_repositories_with_workflows_across_pages() {
    let mut listing = OrgRepoListing::new("rust-lang".to_string());
    assert!(listing.next_query().contains(r#""cursor":null"#));
    let more = listing
        .accept_page(page(
            vec![
                node("crabwatch", false, Some("Tree")),
                node("no-ci", false, None),
                node("file", false, Some("Blob")),
                node("rust-ghsa-5wrv-w8mc-fq5j", true, Some("Tree")),
                node("public-ghsa-5wrv-w8mc-fq5j", false, Some("Tree")),
            ],
            true,
            Some("c1"),
        ))
        .unwrap();
    assert!(more);
    assert_eq!(listing.cursor.as_deref(), Some("c1"));
    assert!(listing.next_query().contains(r#""cursor":"c1""#));
    let more = listing
        .accept_page(page(vec![node("cargo", true, Some("Tree"))], false, None))
        .unwrap();
    assert!(!more);
    assert_eq!(
        listing.repos,
        vec!["crabwatch", "public-ghsa-5wrv-w8mc-fq5j", "cargo"]
    );
}

#[test]
fn listing_fails_for_unknown_organization_or_errors() {
    let mut listing = OrgRepoListing::new("nobody".to_string());
    let missing = OrgReposResponse {
        data: Some(OrgReposData { organization: None }),
        errors: None,
    };
    assert_eq!(
        listing.accept_page(missing).unwrap_err(),
        "organization nobody not found"
    );
    let failed = OrgReposResponse {
        data: None,
        errors: Some("[]".to_string()),
    };
    assert_eq!(
        listing.accept_page(failed).unwrap_err(),
        "GitHub GraphQL API returned errors: []"
    );
}
