use vstd::prelude::*;

use crate::paths::{append_bytes, join_path, joined, slash, user_cache_dir};
use vstd::utf8::{
    decode_utf8, encode_scalar, encode_utf8, has_width_1_encoding, is_ascii_chars,
    is_ascii_chars_encode_utf8, last_continuation_byte, leading_byte_width_1, leading_byte_width_2,
    leading_byte_width_3, leading_byte_width_4, second_last_continuation_byte,
    third_last_continuation_byte,
};
use crate::text::{
    chars_le, chars_of, decimal, decimal_string, lemma_chars_le_total,
    lemma_chars_le_transitive, lemma_chars_le_reflexive, str_le, trim_end, trim_end_chars, from_utf8_lossy, utf8_lossy,
};

verus! {

/// A repository named as `owner/name`.
#[derive(Debug, PartialEq, Eq)]
pub struct ParsedRepo {
    pub org: String,
    pub repo: String,
}

/// The message of the error that `parse_repo` reports.
pub open spec fn repo_form_error() -> Seq<char> {
    "--repo must be in the form owner/name"@
}

/// `s` is split by its only `/`, at position `i`, into two nonempty parts.
pub open spec fn owner_name_split_at(s: Seq<char>, i: int) -> bool {
    &&& 0 < i < s.len() - 1
    &&& s[i] == '/'
    &&& forall|j: int| 0 <= j < s.len() && j != i ==> #[trigger] s[j] != '/'
}

/// `s` has the form `owner/name`: exactly one `/`, with text on both sides.
pub open spec fn is_owner_name(s: Seq<char>) -> bool {
    exists|i: int| owner_name_split_at(s, i)
}

/// Splits `owner/name` into its two parts.
pub fn parse_repo(input: &str) -> (r: Result<ParsedRepo, String>)
    ensures
        r is Ok <==> is_owner_name(input@),
        r matches Ok(p) ==> {
            &&& p.org@.len() > 0
            &&& p.repo@.len() > 0
            &&& !p.org@.contains('/')
            &&& !p.repo@.contains('/')
            &&& input@ == p.org@ + seq!['/'] + p.repo@
        },
        r matches Err(e) ==> e@ == repo_form_error(),
{
    let cs = chars_of(input);
    let n = cs.len();
    let mut slash: Option<usize> = None;
    let mut k: usize = 0;
    while k < n
        invariant
            cs@ == input@,
            n == cs.len(),
            k <= n,
            match slash {
                None => forall|j: int| 0 <= j < k ==> #[trigger] cs@[j] != '/',
                Some(f) => {
                    &&& f < k
                    &&& cs@[f as int] == '/'
                    &&& forall|j: int| 0 <= j < k && j != f ==> #[trigger] cs@[j] != '/'
                },
            },
        decreases n - k,
    {
        if cs[k] == '/' {
            if let Some(f) = slash {
                proof {
                    assert forall|i: int| !owner_name_split_at(input@, i) by {
                        if owner_name_split_at(input@, i) {
                            if i != f {
                                assert(input@[f as int] != '/');
                            } else {
                                assert(input@[k as int] != '/');
                            }
                        }
                    }
                }
                return Err("--repo must be in the form owner/name".to_owned());
            }
            slash = Some(k);
        }
        k += 1;
    }
    match slash {
        None => {
            proof {
                assert forall|i: int| !owner_name_split_at(input@, i) by {
                    if owner_name_split_at(input@, i) {
                        assert(input@[i] == '/');
                    }
                }
            }
            Err("--repo must be in the form owner/name".to_owned())
        },
        Some(f) => {
            if f == 0 || f + 1 == n {
                proof {
                    assert forall|i: int| !owner_name_split_at(input@, i) by {
                        if owner_name_split_at(input@, i) {
                            if i != f {
                                assert(input@[i] == '/');
                            }
                        }
                    }
                }
                Err("--repo must be in the form owner/name".to_owned())
            } else {
                let org = input.substring_char(0, f).to_owned();
                let repo = input.substring_char(f + 1, n).to_owned();
                proof {
                    assert(owner_name_split_at(input@, f as int));
                    assert(input@ =~= org@ + seq!['/'] + repo@);
                    assert forall|j: int| 0 <= j < org@.len() implies org@[j] != '/' by {
                        assert(org@[j] == input@[j]);
                    }
                    assert forall|j: int| 0 <= j < repo@.len() implies repo@[j] != '/' by {
                        assert(repo@[j] == input@[f + 1 + j]);
                    }
                }
                Ok(ParsedRepo { org, repo })
            }
        },
    }
}


/// Joining an owner and a name, both nonempty and free of `/`, gives text of
/// the form `owner/name` that splits back into exactly that owner and name.
pub proof fn lemma_owner_name_roundtrip(org: Seq<char>, repo: Seq<char>)
    requires
        org.len() > 0,
        repo.len() > 0,
        !org.contains('/'),
        !repo.contains('/'),
    ensures
        is_owner_name(org + seq!['/'] + repo),
        forall|o: Seq<char>, n: Seq<char>|
            #![trigger o + seq!['/'] + n]
            !o.contains('/') && !n.contains('/') && org + seq!['/'] + repo == o + seq!['/'] + n
                ==> o == org && n == repo,
{
    let s = org + seq!['/'] + repo;
    let i = org.len() as int;
    assert forall|j: int| 0 <= j < s.len() && j != i implies #[trigger] s[j] != '/' by {
        if j < i {
            assert(s[j] == org[j]);
        } else {
            assert(s[j] == repo[j - i - 1]);
        }
    }
    assert(owner_name_split_at(s, i));
    assert forall|o: Seq<char>, n: Seq<char>|
        #![trigger o + seq!['/'] + n]
        !o.contains('/') && !n.contains('/') && s == o + seq!['/'] + n implies o == org && n
        == repo by {
        let t = o + seq!['/'] + n;
        let k = o.len() as int;
        assert(t[k] == '/');
        if k < i {
            assert(s[k] == org[k]);
        } else if k > i {
            assert(t[i] == o[i]);
        }
        assert(o =~= s.subrange(0, i));
        assert(org =~= s.subrange(0, i));
        assert(n =~= s.subrange(i + 1, s.len() as int));
        assert(repo =~= s.subrange(i + 1, s.len() as int));
    }
}

// ---------------------------------------------------------------------------
// Failures of an organization scan
// ---------------------------------------------------------------------------

/// The name by which failures are ordered: the repository's name.
pub open spec fn failure_key(f: (ParsedRepo, String)) -> Seq<char> {
    f.0.repo@
}

/// `s` is ordered by repository name.
pub open spec fn sorted_by_repo(s: Seq<(ParsedRepo, String)>) -> bool {
    forall|i: int, j: int|
        0 <= i < j < s.len() ==> chars_le(failure_key(#[trigger] s[i]), failure_key(#[trigger] s[j]))
}

/// `x` placed into `s` after every element whose name is not greater than its own.
pub open spec fn insert_by_repo(s: Seq<(ParsedRepo, String)>, x: (ParsedRepo, String)) -> Seq<
    (ParsedRepo, String),
>
    decreases s.len(),
{
    if s.len() == 0 {
        seq![x]
    } else if chars_le(failure_key(s.last()), failure_key(x)) {
        s.push(x)
    } else {
        insert_by_repo(s.drop_last(), x).push(s.last())
    }
}

/// `s` sorted by repository name by a stable sort: failures of the same name
/// keep their order.
pub open spec fn sort_by_repo(s: Seq<(ParsedRepo, String)>) -> Seq<(ParsedRepo, String)>
    decreases s.len(),
{
    if s.len() == 0 {
        s
    } else {
        insert_by_repo(sort_by_repo(s.drop_last()), s.last())
    }
}

proof fn lemma_insert_by_repo_at(s: Seq<(ParsedRepo, String)>, x: (ParsedRepo, String), j: int)
    requires
        0 <= j <= s.len(),
        j == 0 || chars_le(failure_key(s[j - 1]), failure_key(x)),
        forall|k: int| j <= k < s.len() ==> !chars_le(failure_key(#[trigger] s[k]), failure_key(x)),
    ensures
        insert_by_repo(s, x) == s.insert(j, x),
    decreases s.len(),
{
    if s.len() == 0 {
        assert(s.insert(j, x) =~= seq![x]);
    } else if j == s.len() {
        assert(s.insert(j, x) =~= s.push(x));
    } else {
        assert(!chars_le(failure_key(s[s.len() - 1]), failure_key(x)));
        let d = s.drop_last();
        assert forall|k: int| j <= k < d.len() implies !chars_le(
            failure_key(#[trigger] d[k]),
            failure_key(x),
        ) by {
            assert(d[k] == s[k]);
        }
        lemma_insert_by_repo_at(d, x, j);
        assert(s.insert(j, x) =~= d.insert(j, x).push(s.last()));
    }
}

proof fn lemma_insert_by_repo_elements(s: Seq<(ParsedRepo, String)>, x: (ParsedRepo, String))
    ensures
        insert_by_repo(s, x).len() == s.len() + 1,
        insert_by_repo(s, x).to_multiset() == s.to_multiset().insert(x),
        forall|i: int|
            0 <= i < insert_by_repo(s, x).len() ==> #[trigger] insert_by_repo(s, x)[i] == x
                || s.contains(insert_by_repo(s, x)[i]),
    decreases s.len(),
{
    broadcast use vstd::seq_lib::group_to_multiset_ensures;

    if s.len() == 0 {
        assert(seq![x] =~= Seq::<(ParsedRepo, String)>::empty().push(x));
    } else if chars_le(failure_key(s.last()), failure_key(x)) {
    } else {
        let d = s.drop_last();
        lemma_insert_by_repo_elements(d, x);
        assert(s =~= d.push(s.last()));
        let r = insert_by_repo(s, x);
        assert forall|i: int| 0 <= i < r.len() implies #[trigger] r[i] == x || s.contains(r[i]) by {
            if i < r.len() - 1 {
                let y = insert_by_repo(d, x)[i];
                if y != x {
                    let k = choose|k: int| 0 <= k < d.len() && d[k] == y;
                    assert(s[k] == y);
                }
            } else {
                assert(s[s.len() - 1] == r[i]);
            }
        }
    }
}

proof fn lemma_insert_by_repo_sorted(s: Seq<(ParsedRepo, String)>, x: (ParsedRepo, String))
    requires
        sorted_by_repo(s),
    ensures
        sorted_by_repo(insert_by_repo(s, x)),
    decreases s.len(),
{
    if s.len() == 0 {
    } else if chars_le(failure_key(s.last()), failure_key(x)) {
        let r = s.push(x);
        assert forall|i: int, j: int| 0 <= i < j < r.len() implies chars_le(
            failure_key(#[trigger] r[i]),
            failure_key(#[trigger] r[j]),
        ) by {
            if j == r.len() - 1 && i < s.len() - 1 {
                lemma_chars_le_transitive(
                    failure_key(s[i]),
                    failure_key(s.last()),
                    failure_key(x),
                );
            }
        }
    } else {
        let d = s.drop_last();
        let last = s.last();
        lemma_chars_le_total(failure_key(last), failure_key(x));
        lemma_insert_by_repo_sorted(d, x);
        lemma_insert_by_repo_elements(d, x);
        let q = insert_by_repo(d, x);
        let r = q.push(last);
        assert forall|i: int, j: int| 0 <= i < j < r.len() implies chars_le(
            failure_key(#[trigger] r[i]),
            failure_key(#[trigger] r[j]),
        ) by {
            if j == r.len() - 1 {
                assert(q[i] == r[i]);
                if q[i] != x {
                    let k = choose|k: int| 0 <= k < d.len() && d[k] == q[i];
                    assert(s[k] == d[k]);
                }
            } else {
                assert(q[i] == r[i] && q[j] == r[j]);
            }
        }
    }
}

/// Sorting by repository name orders the failures by name and keeps every
/// failure, each as often as it occurred.
pub proof fn lemma_sort_by_repo(s: Seq<(ParsedRepo, String)>)
    ensures
        sorted_by_repo(sort_by_repo(s)),
        sort_by_repo(s).to_multiset() == s.to_multiset(),
        sort_by_repo(s).len() == s.len(),
    decreases s.len(),
{
    broadcast use vstd::seq_lib::group_to_multiset_ensures;

    if s.len() > 0 {
        let d = s.drop_last();
        lemma_sort_by_repo(d);
        lemma_insert_by_repo_sorted(sort_by_repo(d), s.last());
        lemma_insert_by_repo_elements(sort_by_repo(d), s.last());
        assert(s =~= d.push(s.last()));
    }
}

/// The failures of `s` whose repository is named `key`, in order.
pub open spec fn failures_named(s: Seq<(ParsedRepo, String)>, key: Seq<char>) -> Seq<
    (ParsedRepo, String),
>
    decreases s.len(),
{
    if s.len() == 0 {
        Seq::empty()
    } else if failure_key(s.last()) == key {
        failures_named(s.drop_last(), key).push(s.last())
    } else {
        failures_named(s.drop_last(), key)
    }
}

proof fn lemma_insert_by_repo_named(
    t: Seq<(ParsedRepo, String)>,
    x: (ParsedRepo, String),
    key: Seq<char>,
)
    ensures
        failures_named(insert_by_repo(t, x), key) == if failure_key(x) == key {
            failures_named(t, key).push(x)
        } else {
            failures_named(t, key)
        },
    decreases t.len(),
{
    if t.len() == 0 {
        let e = Seq::<(ParsedRepo, String)>::empty();
        assert(seq![x] =~= e.push(x));
        assert(e.push(x).drop_last() =~= e);
        assert(failures_named(e, key) =~= e);
    } else if chars_le(failure_key(t.last()), failure_key(x)) {
        assert(t.push(x).drop_last() =~= t);
        assert(t.push(x).last() == x);
    } else {
        let d = t.drop_last();
        let last = t.last();
        lemma_insert_by_repo_named(d, x, key);
        let q = insert_by_repo(d, x);
        assert(q.push(last).drop_last() =~= q);
        assert(q.push(last).last() == last);
        assert(failures_named(q.push(last), key) == if failure_key(last) == key {
            failures_named(q, key).push(last)
        } else {
            failures_named(q, key)
        });
        if failure_key(x) == key {
            lemma_chars_le_reflexive(key);
            assert(failure_key(last) != key);
        }
    }
}

/// The sort is stable: for every name, the failures of that name come out in
/// the order in which they went in.
pub proof fn lemma_sort_by_repo_stable(s: Seq<(ParsedRepo, String)>, key: Seq<char>)
    ensures
        failures_named(sort_by_repo(s), key) == failures_named(s, key),
    decreases s.len(),
{
    if s.len() > 0 {
        let d = s.drop_last();
        lemma_sort_by_repo_stable(d, key);
        lemma_insert_by_repo_named(sort_by_repo(d), s.last(), key);
    }
}

/// The sorted failures are in order of repository name, compared as strings:
/// each name is at most the next one.
pub proof fn lemma_sorted_failures_in_name_order(s: Seq<(ParsedRepo, String)>, i: int, j: int)
    requires
        0 <= i < j < s.len(),
    ensures
        chars_le(sort_by_repo(s)[i].0.repo@, sort_by_repo(s)[j].0.repo@),
        sort_by_repo(s).len() == s.len(),
{
    lemma_sort_by_repo(s);
    let r = sort_by_repo(s);
    assert(chars_le(failure_key(r[i]), failure_key(r[j])));
}

/// `failures`, sorted by repository name (a stable sort).
pub fn sort_failures(failures: Vec<(ParsedRepo, String)>) -> (r: Vec<(ParsedRepo, String)>)
    ensures
        r@ == sort_by_repo(failures@),
{
    let ghost all = failures@;
    let n = failures.len();
    let mut rest = failures;
    let mut sorted: Vec<(ParsedRepo, String)> = Vec::new();
    let mut i: usize = 0;
    while rest.len() > 0
        invariant
            i + rest@.len() == all.len(),
            all.len() == n,
            rest@ == all.subrange(i as int, all.len() as int),
            sorted@ == sort_by_repo(all.subrange(0, i as int)),
        decreases rest@.len(),
    {
        let x = rest.remove(0);
        let mut j = sorted.len();
        while j > 0 && !str_le(sorted[j - 1].0.repo.as_str(), x.0.repo.as_str())
            invariant
                j <= sorted.len(),
                forall|k: int|
                    j <= k < sorted@.len() ==> !chars_le(
                        failure_key(#[trigger] sorted@[k]),
                        failure_key(x),
                    ),
            decreases j,
        {
            j -= 1;
        }
        proof {
            lemma_insert_by_repo_at(sorted@, x, j as int);
            let p = all.subrange(0, i + 1);
            assert(p.drop_last() =~= all.subrange(0, i as int));
            assert(p.last() == x);
        }
        sorted.insert(j, x);
        i += 1;
        assert(rest@ =~= all.subrange(i as int, all.len() as int));
    }
    assert(all.subrange(0, i as int) =~= all);
    sorted
}

/// One line of the report of failed repositories.
pub open spec fn failure_line(f: (ParsedRepo, String)) -> Seq<char> {
    "  "@ + f.0.org@ + "/"@ + f.0.repo@ + ": "@ + f.1@
}

/// The lines of `fs`, joined by line feeds.
pub open spec fn failure_details(fs: Seq<(ParsedRepo, String)>) -> Seq<char>
    decreases fs.len(),
{
    if fs.len() == 0 {
        Seq::empty()
    } else if fs.len() == 1 {
        failure_line(fs[0])
    } else {
        failure_details(fs.drop_last()) + "\n"@ + failure_line(fs.last())
    }
}

/// Each further failure adds a line feed and its own line to the details, so
/// the details hold every failure's line, in order; a single failure's line
/// is `  <org>/<repo>: <error>`.
pub proof fn lemma_failure_details_grow(fs: Seq<(ParsedRepo, String)>, f: (ParsedRepo, String))
    ensures
        fs.len() > 0 ==> failure_details(fs.push(f)) == failure_details(fs) + "\n"@
            + failure_line(f),
        failure_details(seq![f]) == "  "@ + f.0.org@ + "/"@ + f.0.repo@ + ": "@ + f.1@,
        failure_details(Seq::<(ParsedRepo, String)>::empty()).len() == 0,
{
    assert(fs.push(f).drop_last() =~= fs);
    assert(fs.push(f).last() == f);
    assert(seq![f].len() == 1 && seq![f][0] == f);
}

/// The message of an organization scan in which some repositories failed.
pub open spec fn incomplete_scan_message(
    org: Seq<char>,
    total_repos: nat,
    fs: Seq<(ParsedRepo, String)>,
) -> Seq<char> {
    "organization scan for "@ + org + " incomplete: "@ + decimal(fs.len()) + " of "@ + decimal(
        total_repos,
    ) + " repositories failed:\n"@ + failure_details(fs)
}

/// The error of an organization scan in which the repositories of `failures`
/// could not be scanned.
pub fn incomplete_org_scan_error(
    org: &str,
    total_repos: usize,
    failures: &[(ParsedRepo, String)],
) -> (message: String)
    ensures
        message@ == incomplete_scan_message(org@, total_repos as nat, failures@),
{
    let mut details = String::new();
    let mut i: usize = 0;
    while i < failures.len()
        invariant
            i <= failures@.len(),
            details@ == failure_details(failures@.subrange(0, i as int)),
        decreases failures@.len() - i,
    {
        let f = &failures[i];
        let ghost before = details@;
        if i > 0 {
            details.append("\n");
        }
        details.append("  ");
        details.append(f.0.org.as_str());
        details.append("/");
        details.append(f.0.repo.as_str());
        details.append(": ");
        details.append(f.1.as_str());
        proof {
            let p = failures@.subrange(0, i + 1);
            assert(p.drop_last() =~= failures@.subrange(0, i as int));
            assert(p.last() == failures@[i as int]);
            if i == 0 {
                assert(p.len() == 1 && p[0] == failures@[0]);
            }
        }
        i += 1;
    }
    assert(failures@.subrange(0, i as int) =~= failures@);
    let mut message = "organization scan for ".to_owned();
    message.append(org);
    message.append(" incomplete: ");
    message.append(decimal_string(failures.len()).as_str());
    message.append(" of ");
    message.append(decimal_string(total_repos).as_str());
    message.append(" repositories failed:\n");
    message.append(details.as_str());
    message
}


// ---------------------------------------------------------------------------
// Where the cache lives
// ---------------------------------------------------------------------------

/// The message of the error when no cache directory is known.
pub open spec fn no_cache_dir_error() -> Seq<char> {
    "no cache directory available; try passing --cache-dir"@
}

/// The directory of the Crabwatch cache: the override when one is given, else
/// `crabwatch` inside the user's cache directory `cache_dir`. Paths are bytes.
pub open spec fn spec_crabwatch_dir(
    cache_dir_override: Option<Seq<u8>>,
    cache_dir: Option<Seq<u8>>,
) -> Result<Seq<u8>, Seq<char>> {
    match cache_dir_override {
        Some(path) => Ok(path),
        None => match cache_dir {
            Some(dir) => Ok(joined(dir, encode_utf8("crabwatch"@))),
            None => Err(no_cache_dir_error()),
        },
    }
}

pub open spec fn opt_bytes(o: Option<&[u8]>) -> Option<Seq<u8>> {
    match o {
        Some(s) => Some(s@),
        None => None,
    }
}

pub open spec fn path_result_view(r: Result<Vec<u8>, String>) -> Result<Seq<u8>, Seq<char>> {
    match r {
        Ok(p) => Ok(p@),
        Err(e) => Err(e@),
    }
}

/// The cache directory, given the user's cache directory as `dirs::cache_dir`
/// reported it.
pub fn crabwatch_dir_from(cache_dir_override: Option<&[u8]>, cache_dir: Option<&[u8]>) -> (r:
    Result<Vec<u8>, String>)
    ensures
        path_result_view(r) == spec_crabwatch_dir(
            opt_bytes(cache_dir_override),
            opt_bytes(cache_dir),
        ),
{
    match cache_dir_override {
        Some(path) => {
            let mut p: Vec<u8> = Vec::new();
            append_bytes(&mut p, path);
            assert(p@ =~= path@);
            Ok(p)
        },
        None => match cache_dir {
            Some(dir) => Ok(join_path(dir, "crabwatch".as_bytes())),
            None => Err("no cache directory available; try passing --cache-dir".to_owned()),
        },
    }
}

/// The cache directory: the override when one is given, else `crabwatch` inside
/// the user's cache directory, which the environment decides.
pub fn crabwatch_dir(cache_dir_override: Option<&[u8]>) -> (r: Result<Vec<u8>, String>)
    ensures
        cache_dir_override matches Some(path) ==> (r matches Ok(p) && p@ == path@),
        cache_dir_override is None ==> match r {
            Ok(p) => exists|dir: Seq<u8>| p@ == joined(dir, encode_utf8("crabwatch"@)),
            Err(e) => e@ == no_cache_dir_error(),
        },
{
    match cache_dir_override {
        Some(path) => crabwatch_dir_from(Some(path), None),
        None => {
            let cache_dir = user_cache_dir();
            match cache_dir {
                Some(dir) => {
                    let r = crabwatch_dir_from(None, Some(dir.as_slice()));
                    proof {
                        if r is Ok {
                            assert(r->Ok_0@ == joined(dir@, encode_utf8("crabwatch"@)));
                        }
                    }
                    r
                },
                None => crabwatch_dir_from(None, None),
            }
        },
    }
}

/// Where the checkout of `repo` at commit `sha` is cached:
/// `<crabwatch_dir>/repos/<org>/<repo>/<sha>`, every part as its UTF-8 bytes.
pub open spec fn spec_cache_path(
    org: Seq<u8>,
    repo: Seq<u8>,
    crabwatch_dir: Seq<u8>,
    sha: Seq<u8>,
) -> Seq<u8> {
    joined(joined(joined(joined(crabwatch_dir, encode_utf8("repos"@)), org), repo), sha)
}

pub fn cache_path(repo: &ParsedRepo, crabwatch_dir: &[u8], sha: &str) -> (path: Vec<u8>)
    ensures
        path@ == spec_cache_path(
            encode_utf8(repo.org@),
            encode_utf8(repo.repo@),
            crabwatch_dir@,
            encode_utf8(sha@),
        ),
{
    let repos = join_path(crabwatch_dir, "repos".as_bytes());
    let org = join_path(repos.as_slice(), repo.org.as_str().as_bytes());
    let name = join_path(org.as_slice(), repo.repo.as_str().as_bytes());
    join_path(name.as_slice(), sha.as_bytes())
}

/// Two byte strings, each a `/`-free head, a `/` and a rest, are equal only
/// when their heads and rests are.
proof fn lemma_slash_split_unique(a1: Seq<u8>, r1: Seq<u8>, a2: Seq<u8>, r2: Seq<u8>)
    requires
        !a1.contains(slash()),
        !a2.contains(slash()),
        a1 + seq![slash()] + r1 == a2 + seq![slash()] + r2,
    ensures
        a1 == a2,
        r1 == r2,
{
    let s = a1 + seq![slash()] + r1;
    let t = a2 + seq![slash()] + r2;
    if a1.len() < a2.len() {
        assert(s[a1.len() as int] == slash());
        assert(t[a1.len() as int] == a2[a1.len() as int]);
    }
    if a2.len() < a1.len() {
        assert(t[a2.len() as int] == slash());
        assert(s[a2.len() as int] == a1[a2.len() as int]);
    }
    assert(a1 =~= s.subrange(0, a1.len() as int));
    assert(a2 =~= t.subrange(0, a2.len() as int));
    assert(r1 =~= s.subrange(a1.len() as int + 1, s.len() as int));
    assert(r2 =~= t.subrange(a2.len() as int + 1, t.len() as int));
}

/// Joining a nonempty `/`-free part onto a nonempty base that does not end in
/// `/` puts one `/` between them.
proof fn lemma_join_plain_part(base: Seq<u8>, part: Seq<u8>)
    requires
        base.len() > 0,
        base.last() != slash(),
        part.len() > 0,
        !part.contains(slash()),
    ensures
        joined(base, part) == base + seq![slash()] + part,
        joined(base, part).last() != slash(),
{
    assert(part[0] != slash());
    assert(part.last() != slash()) by {
        assert(part[part.len() - 1] == part.last());
    }
    let r = base + seq![slash()] + part;
    assert(r.last() == part.last());
}

/// The UTF-8 encoding of a character holds the byte `/` only when the
/// character is `/`.
proof fn lemma_scalar_slash(c: char)
    ensures
        encode_scalar(c as u32).contains(slash()) ==> c == '/',
        encode_scalar(c as u32).len() > 0,
{
    let v = c as u32;
    let e = encode_scalar(v);
    if e.contains(slash()) {
        let k = choose|k: int| 0 <= k < e.len() && e[k] == slash();
        if has_width_1_encoding(v) {
            assert(leading_byte_width_1(v) == v) by (bit_vector)
                requires
                    v <= 0x7F,
            ;
        } else {
            let a = leading_byte_width_2(v);
            let b = leading_byte_width_3(v);
            let d = leading_byte_width_4(v);
            let x = last_continuation_byte(v);
            let y = second_last_continuation_byte(v);
            let z = third_last_continuation_byte(v);
            assert(a >= 0x80 && b >= 0x80 && d >= 0x80) by (bit_vector)
                requires
                    a == 0xC0 | ((v >> 6) & 0x1F) as u8,
                    b == 0xE0 | ((v >> 12) & 0x0F) as u8,
                    d == 0xF0 | ((v >> 18) & 0x7) as u8,
            ;
            assert(x >= 0x80 && y >= 0x80 && z >= 0x80) by (bit_vector)
                requires
                    x == 0x80 | (v & 0x3F) as u8,
                    y == 0x80 | ((v >> 6) & 0x3F) as u8,
                    z == 0x80 | ((v >> 12) & 0x3F) as u8,
            ;
        }
    }
}

/// Text without `/` is encoded without the byte `/`, and nonempty text as
/// nonempty bytes.
proof fn lemma_utf8_slash_free(s: Seq<char>)
    requires
        !s.contains('/'),
    ensures
        !encode_utf8(s).contains(slash()),
        s.len() > 0 ==> encode_utf8(s).len() > 0,
    decreases s.len(),
{
    if s.len() > 0 {
        let e = encode_scalar(s[0] as u32);
        let rest = s.drop_first();
        assert(!rest.contains('/')) by {
            if rest.contains('/') {
                let k = choose|k: int| 0 <= k < rest.len() && rest[k] == '/';
                assert(s[k + 1] == '/');
            }
        }
        lemma_utf8_slash_free(rest);
        lemma_scalar_slash(s[0]);
        assert(s[0] != '/');
        let all = e + encode_utf8(rest);
        if all.contains(slash()) {
            let k = choose|k: int| 0 <= k < all.len() && all[k] == slash();
            if k < e.len() {
                assert(e[k] == slash());
            } else {
                assert(encode_utf8(rest)[k - e.len()] == slash());
            }
        }
    }
}

/// Cache paths of different repositories or commits differ: for owner, name
/// and commit that are nonempty and free of `/`, equal cache paths under one
/// cache directory mean equal owner, name and commit.
pub proof fn lemma_cache_path_injective(
    crabwatch_dir: Seq<u8>,
    org1: Seq<char>,
    repo1: Seq<char>,
    sha1: Seq<char>,
    org2: Seq<char>,
    repo2: Seq<char>,
    sha2: Seq<char>,
)
    requires
        org1.len() > 0 && !org1.contains('/'),
        repo1.len() > 0 && !repo1.contains('/'),
        sha1.len() > 0 && !sha1.contains('/'),
        org2.len() > 0 && !org2.contains('/'),
        repo2.len() > 0 && !repo2.contains('/'),
        sha2.len() > 0 && !sha2.contains('/'),
    ensures
        spec_cache_path(
            encode_utf8(org1),
            encode_utf8(repo1),
            crabwatch_dir,
            encode_utf8(sha1),
        ) == spec_cache_path(encode_utf8(org2), encode_utf8(repo2), crabwatch_dir, encode_utf8(sha2))
            <==> (org1 == org2 && repo1 == repo2 && sha1 == sha2),
{
    broadcast use vstd::utf8::encode_utf8_decode_utf8;

    reveal_strlit("repos");
    let r = encode_utf8("repos"@);
    assert(is_ascii_chars("repos"@));
    is_ascii_chars_encode_utf8("repos"@);
    assert("repos"@[0] as u8 == r[0]);
    assert("repos"@[4] as u8 == r[4]);
    let x = joined(crabwatch_dir, r);
    assert(x.len() > 0 && x.last() != slash()) by {
        assert(x.last() == r.last());
    }
    let (o1, n1, h1) = (encode_utf8(org1), encode_utf8(repo1), encode_utf8(sha1));
    let (o2, n2, h2) = (encode_utf8(org2), encode_utf8(repo2), encode_utf8(sha2));
    lemma_utf8_slash_free(org1);
    lemma_utf8_slash_free(repo1);
    lemma_utf8_slash_free(sha1);
    lemma_utf8_slash_free(org2);
    lemma_utf8_slash_free(repo2);
    lemma_utf8_slash_free(sha2);
    let sl = seq![slash()];
    lemma_join_plain_part(x, o1);
    lemma_join_plain_part(x + sl + o1, n1);
    lemma_join_plain_part(x + sl + o1 + sl + n1, h1);
    lemma_join_plain_part(x, o2);
    lemma_join_plain_part(x + sl + o2, n2);
    lemma_join_plain_part(x + sl + o2 + sl + n2, h2);
    let t1 = o1 + sl + (n1 + sl + h1);
    let t2 = o2 + sl + (n2 + sl + h2);
    assert(spec_cache_path(o1, n1, crabwatch_dir, h1) =~= x + sl + t1);
    assert(spec_cache_path(o2, n2, crabwatch_dir, h2) =~= x + sl + t2);
    if spec_cache_path(o1, n1, crabwatch_dir, h1) == spec_cache_path(o2, n2, crabwatch_dir, h2) {
        assert(t1 =~= (x + sl + t1).subrange((x + sl).len() as int, (x + sl + t1).len() as int));
        assert(t2 =~= (x + sl + t2).subrange((x + sl).len() as int, (x + sl + t2).len() as int));
        lemma_slash_split_unique(o1, n1 + sl + h1, o2, n2 + sl + h2);
        lemma_slash_split_unique(n1, h1, n2, h2);
        assert(decode_utf8(o1) == org1 && decode_utf8(o2) == org2);
        assert(decode_utf8(n1) == repo1 && decode_utf8(n2) == repo2);
        assert(decode_utf8(h1) == sha1 && decode_utf8(h2) == sha2);
    }
}

// ---------------------------------------------------------------------------
// Reports
// ---------------------------------------------------------------------------

/// The message of the error when no GitHub token was given.
pub open spec fn missing_token_error() -> Seq<char> {
    "a GitHub token is required (--github-token or GITHUB_TOKEN env var)"@
}

/// The GitHub token, which an analysis cannot do without.
pub fn github_token(token: Option<&str>) -> (r: Result<&str, String>)
    ensures
        match token {
            Some(t) => r matches Ok(u) && u@ == t@,
            None => r matches Err(e) && e@ == missing_token_error(),
        },
{
    match token {
        Some(t) => Ok(t),
        None => Err("a GitHub token is required (--github-token or GITHUB_TOKEN env var)".to_owned()),
    }
}

/// The report of one analyzed repository.
pub open spec fn spec_analysis_report(
    sha: Seq<char>,
    path: Seq<u8>,
    cache_hit: bool,
    scan_output: Seq<char>,
) -> Seq<char> {
    "HEAD commit: "@ + sha + "\n"@ + (if cache_hit {
        "cache hit: "@
    } else {
        "cloning into: "@
    }) + utf8_lossy(path) + "\n"@ + trim_end_chars(scan_output) + "\n"@
}

/// The report of one analyzed repository: its head commit, whether its checkout
/// at `path` was cached or is cloned there, and the scan's output without
/// trailing whitespace.
pub fn analysis_report(sha: &str, path: &[u8], cache_hit: bool, scan_output: &str) -> (out: String)
    ensures
        out@ == spec_analysis_report(sha@, path@, cache_hit, scan_output@),
{
    let mut out = "HEAD commit: ".to_owned();
    out.append(sha);
    out.append("\n");
    if cache_hit {
        out.append("cache hit: ");
    } else {
        out.append("cloning into: ");
    }
    out.append(from_utf8_lossy(path).as_str());
    out.append("\n");
    out.append(trim_end(scan_output).as_str());
    out.append("\n");
    out
}

// ---------------------------------------------------------------------------
// Scanning an organization
// ---------------------------------------------------------------------------

/// The scan of every repository of an organization, as the results come in.
pub struct OrgScan {
    pub org: String,
    pub total_repos: usize,
    /// The repositories that failed so far, with their errors, in the order
    /// in which they failed.
    pub failures: Vec<(ParsedRepo, String)>,
}

/// What a scan result prints: text for the standard output, and a line for the
/// standard error when the repository failed.
pub open spec fn header(parsed: ParsedRepo) -> Seq<char> {
    "\n=== "@ + parsed.org@ + "/"@ + parsed.repo@ + " ===\n"@
}

pub open spec fn failure_notice(parsed: ParsedRepo, error: Seq<char>) -> Seq<char> {
    "failed to scan "@ + parsed.org@ + "/"@ + parsed.repo@ + ": "@ + error + "\n"@
}

impl OrgScan {
    pub fn new(org: String, total_repos: usize) -> (s: Self)
        ensures
            s.org == org,
            s.total_repos == total_repos,
            s.failures@.len() == 0,
    {
        OrgScan { org, total_repos, failures: Vec::new() }
    }

    /// `found <n> repos in <org>`
    pub fn found_message(&self) -> (m: String)
        ensures
            m@ == "found "@ + decimal(self.total_repos as nat) + " repos in "@ + self.org@,
    {
        let mut m = "found ".to_owned();
        m.append(decimal_string(self.total_repos).as_str());
        m.append(" repos in ");
        m.append(self.org.as_str());
        m
    }

    /// Takes the result of scanning `parsed`: its report, or the text of its
    /// error. Returns what to print on the standard output and, for a failure,
    /// on the standard error; a failure is remembered.
    pub fn record(&mut self, parsed: ParsedRepo, result: Result<String, String>) -> (printed: (
        String,
        Option<String>,
    ))
        ensures
            final(self).org == old(self).org,
            final(self).total_repos == old(self).total_repos,
            match result {
                Ok(output) => {
                    &&& printed.0@ == header(parsed) + output@
                    &&& printed.1 is None
                    &&& final(self).failures@ == old(self).failures@
                },
                Err(error) => {
                    &&& printed.0@ == header(parsed)
                    &&& printed.1 matches Some(line) && line@ == failure_notice(parsed, error@)
                    &&& final(self).failures@ == old(self).failures@.push((parsed, error))
                },
            },
    {
        let mut out = "\n=== ".to_owned();
        out.append(parsed.org.as_str());
        out.append("/");
        out.append(parsed.repo.as_str());
        out.append(" ===\n");
        match result {
            Ok(output) => {
                out.append(output.as_str());
                (out, None)
            },
            Err(error) => {
                let mut line = "failed to scan ".to_owned();
                line.append(parsed.org.as_str());
                line.append("/");
                line.append(parsed.repo.as_str());
                line.append(": ");
                line.append(error.as_str());
                line.append("\n");
                self.failures.push((parsed, error));
                (out, Some(line))
            },
        }
    }

    /// The outcome of the whole scan: success when no repository failed, else
    /// the error that lists the failures sorted by repository name.
    pub fn finish(self) -> (r: Result<(), String>)
        ensures
            self.failures@.len() == 0 ==> r is Ok,
            self.failures@.len() > 0 ==> (r matches Err(e) && e@ == incomplete_scan_message(
                self.org@,
                self.total_repos as nat,
                sort_by_repo(self.failures@),
            )),
    {
        if self.failures.len() == 0 {
            Ok(())
        } else {
            let sorted = sort_failures(self.failures);
            Err(incomplete_org_scan_error(self.org.as_str(), self.total_repos, sorted.as_slice()))
        }
    }
}

} // verus!
