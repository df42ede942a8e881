use vstd::prelude::*;

use crate::text::chars_of;

verus! {

/// Whether `c` belongs to the alphabet of GitHub security-advisory identifiers,
/// `23456789cfghjmpqrvwx`.
pub open spec fn is_ghsa_char(c: char) -> bool {
    ||| c == '2' || c == '3' || c == '4' || c == '5'
    ||| c == '6' || c == '7' || c == '8' || c == '9'
    ||| c == 'c' || c == 'f' || c == 'g' || c == 'h'
    ||| c == 'j' || c == 'm' || c == 'p' || c == 'q'
    ||| c == 'r' || c == 'v' || c == 'w' || c == 'x'
}

/// An advisory identifier without its `GHSA-` prefix: three groups of four
/// alphabet characters joined by `-`, such as `5wrv-w8mc-fq5j`.
pub open spec fn is_ghsa_id(s: Seq<char>) -> bool {
    &&& s.len() == 14
    &&& forall|i: int|
        0 <= i < 14 ==> if i == 4 || i == 9 {
            s[i] == '-'
        } else {
            is_ghsa_char(#[trigger] s[i])
        }
}

/// The separator between a repository name and the advisory identifier.
pub open spec fn ghsa_separator() -> Seq<char> {
    seq!['-', 'g', 'h', 's', 'a', '-']
}

/// `name` holds the separator at position `i`.
pub open spec fn separator_at(name: Seq<char>, i: int) -> bool {
    &&& 0 <= i
    &&& i + 6 <= name.len()
    &&& name.subrange(i, i + 6) == ghsa_separator()
}

/// `i` is the last position at which `name` holds the separator.
pub open spec fn last_separator_at(name: Seq<char>, i: int) -> bool {
    &&& separator_at(name, i)
    &&& forall|j: int| i < j ==> !#[trigger] separator_at(name, j)
}

/// The name of a temporary private fork: `repo-ghsa-xxxx-xxxx-xxxx`,
/// with a nonempty `repo` part.
pub open spec fn is_advisory_fork_name(name: Seq<char>) -> bool {
    &&& name.len() >= 21
    &&& separator_at(name, name.len() - 20)
    &&& is_ghsa_id(name.subrange(name.len() - 14, name.len() as int))
}

fn ghsa_alphabet_contains(c: char) -> (b: bool)
    ensures
        b == is_ghsa_char(c),
{
    c == '2' || c == '3' || c == '4' || c == '5' || c == '6' || c == '7' || c == '8' || c == '9'
        || c == 'c' || c == 'f' || c == 'g' || c == 'h' || c == 'j' || c == 'm' || c == 'p'
        || c == 'q' || c == 'r' || c == 'v' || c == 'w' || c == 'x'
}

/// Whether `value` is an advisory identifier (without the `GHSA-` prefix).
pub fn is_ghsa_id_suffix(value: &str) -> (b: bool)
    ensures
        b == is_ghsa_id(value@),
{
    let cs = chars_of(value);
    if cs.len() != 14 {
        return false;
    }
    let mut i: usize = 0;
    while i < 14
        invariant
            cs@ == value@,
            cs.len() == 14,
            i <= 14,
            forall|k: int|
                0 <= k < i ==> if k == 4 || k == 9 {
                    cs@[k] == '-'
                } else {
                    is_ghsa_char(#[trigger] cs@[k])
                },
        decreases 14 - i,
    {
        let c = cs[i];
        let ok = if i == 4 || i == 9 {
            c == '-'
        } else {
            ghsa_alphabet_contains(c)
        };
        if !ok {
            return false;
        }
        i += 1;
    }
    true
}

fn separator_starts_at(cs: &Vec<char>, i: usize) -> (b: bool)
    requires
        i + 6 <= cs.len(),
    ensures
        b == separator_at(cs@, i as int),
{
    let b = cs[i] == '-' && cs[i + 1] == 'g' && cs[i + 2] == 'h' && cs[i + 3] == 's' && cs[i + 4]
        == 'a' && cs[i + 5] == '-';
    proof {
        let sub = cs@.subrange(i as int, i + 6);
        if b {
            assert(sub =~= ghsa_separator());
        } else {
            if sub == ghsa_separator() {
                assert(sub[0] == '-' && sub[1] == 'g' && sub[2] == 'h');
                assert(sub[3] == 's' && sub[4] == 'a' && sub[5] == '-');
            }
        }
    }
    b
}

/// The position of the last separator in `cs`, searching from the end.
fn rfind_separator(cs: &Vec<char>) -> (r: Option<usize>)
    ensures
        match r {
            Some(i) => last_separator_at(cs@, i as int),
            None => forall|j: int| !#[trigger] separator_at(cs@, j),
        },
{
    if cs.len() < 6 {
        return None;
    }
    let mut i: usize = cs.len() - 6 + 1;
    while i > 0
        invariant
            i + 5 <= cs.len(),
            forall|j: int| i <= j ==> !#[trigger] separator_at(cs@, j),
        decreases i,
    {
        i -= 1;
        if separator_starts_at(cs, i) {
            return Some(i);
        }
    }
    None
}

/// The last separator decides the question: a name is a fork name exactly when
/// the text before its last separator is nonempty and the text after it is an
/// advisory identifier.
proof fn lemma_last_separator_decides(name: Seq<char>, i: int)
    requires
        last_separator_at(name, i),
    ensures
        is_advisory_fork_name(name) <==> (i > 0 && is_ghsa_id(
            name.subrange(i + 6, name.len() as int),
        )),
{
    let n = name.len() as int;
    let sep = ghsa_separator();
    assert(name.subrange(i, i + 6)[3] == sep[3]);
    assert(name[i + 3] == 's');
    if i > 0 && is_ghsa_id(name.subrange(i + 6, n)) {
        assert(name.subrange(i + 6, n).len() == 14);
        assert(n - 20 == i);
    }
    if is_advisory_fork_name(name) {
        let k = n - 20;
        let id = name.subrange(n - 14, n);
        assert(separator_at(name, k));
        assert(i >= k);
        if i > k {
            if i + 3 >= n - 14 {
                assert(id[i + 3 - (n - 14)] == name[i + 3]);
                assert(is_ghsa_char(id[i + 3 - (n - 14)]) || id[i + 3 - (n - 14)] == '-');
            } else {
                let s = name.subrange(k, k + 6);
                assert(s[4] == sep[4] && s[5] == sep[5]);
                assert(name[k + 4] == 'a' && name[k + 5] == '-');
            }
        }
        assert(i == k);
    }
}

/// Returns whether a repository is a temporary private security-advisory fork.
pub fn is_security_advisory_fork(name: &str, is_private: bool) -> (b: bool)
    ensures
        b == (is_private && is_advisory_fork_name(name@)),
{
    // GitHub names these private forks `repo-ghsa-xxxx-xxxx-xxxx`.
    if !is_private {
        return false;
    }
    let cs = chars_of(name);
    match rfind_separator(&cs) {
        None => {
            proof {
                if is_advisory_fork_name(name@) {
                    assert(separator_at(name@, name@.len() - 20));
                }
            }
            false
        },
        Some(i) => {
            proof {
                lemma_last_separator_decides(name@, i as int);
            }
            let n = cs.len();
            if i == 0 {
                false
            } else {
                let advisory_id = name.substring_char(i + 6, n);
                is_ghsa_id_suffix(advisory_id)
            }
        },
    }
}

/// A fork name is exactly a nonempty repository name, the `-ghsa-` separator
/// and an advisory identifier, in that order.
pub proof fn lemma_advisory_fork_name_shape(name: Seq<char>)
    ensures
        is_advisory_fork_name(name) <==> exists|repo: Seq<char>, id: Seq<char>|
            #![trigger repo + ghsa_separator() + id]
            repo.len() > 0 && is_ghsa_id(id) && name == repo + ghsa_separator() + id,
{
    let n = name.len() as int;
    if is_advisory_fork_name(name) {
        let repo = name.subrange(0, n - 20);
        let id = name.subrange(n - 14, n);
        assert(name =~= repo + ghsa_separator() + id);
    }
    if exists|repo: Seq<char>, id: Seq<char>|
        #![trigger repo + ghsa_separator() + id]
        repo.len() > 0 && is_ghsa_id(id) && name == repo + ghsa_separator() + id {
        let (repo, id) = choose|repo: Seq<char>, id: Seq<char>|
            #![trigger repo + ghsa_separator() + id]
            repo.len() > 0 && is_ghsa_id(id) && name == repo + ghsa_separator() + id;
        assert(name.subrange(n - 20, n - 14) =~= ghsa_separator());
        assert(name.subrange(n - 14, n) =~= id);
    }
}


/// Each character of `23456789cfghjmpqrvwx`, and no other, may stand in an
/// advisory identifier's group.
pub proof fn lemma_ghsa_char_alphabet(c: char)
    ensures
        is_ghsa_char(c) <==> seq![
            '2', '3', '4', '5', '6', '7', '8', '9', 'c', 'f', 'g', 'h', 'j', 'm', 'p', 'q', 'r',
            'v', 'w', 'x',
        ].contains(c),
{
    let a = seq![
        '2', '3', '4', '5', '6', '7', '8', '9', 'c', 'f', 'g', 'h', 'j', 'm', 'p', 'q', 'r',
        'v', 'w', 'x',
    ];
    assert(a[0] == '2' && a[1] == '3' && a[2] == '4' && a[3] == '5' && a[4] == '6');
    assert(a[5] == '7' && a[6] == '8' && a[7] == '9' && a[8] == 'c' && a[9] == 'f');
    assert(a[10] == 'g' && a[11] == 'h' && a[12] == 'j' && a[13] == 'm' && a[14] == 'p');
    assert(a[15] == 'q' && a[16] == 'r' && a[17] == 'v' && a[18] == 'w' && a[19] == 'x');
    if a.contains(c) {
        let k = choose|k: int| 0 <= k < a.len() && a[k] == c;
        assert(0 <= k < 20);
    }
}

/// An advisory identifier is exactly three groups of four characters of
/// `23456789cfghjmpqrvwx` joined by `-`: every one of the twelve group
/// positions takes every character of that alphabet.
pub proof fn lemma_ghsa_id_groups(s: Seq<char>)
    ensures
        is_ghsa_id(s) <==> {
            &&& s.len() == 14
            &&& s[4] == '-'
            &&& s[9] == '-'
            &&& forall|i: int|
                0 <= i < 14 && i != 4 && i != 9 ==> seq![
                    '2', '3', '4', '5', '6', '7', '8', '9', 'c', 'f', 'g', 'h', 'j', 'm', 'p',
                    'q', 'r', 'v', 'w', 'x',
                ].contains(#[trigger] s[i])
        },
{
    assert forall|i: int| 0 <= i < s.len() implies is_ghsa_char(#[trigger] s[i]) == seq![
        '2', '3', '4', '5', '6', '7', '8', '9', 'c', 'f', 'g', 'h', 'j', 'm', 'p', 'q', 'r',
        'v', 'w', 'x',
    ].contains(s[i]) by {
        lemma_ghsa_char_alphabet(s[i]);
    }
    if s.len() == 14 {
        assert(0 <= 4 < s.len() && 0 <= 9 < s.len());
    }
}

/// Names are recognised by their shape alone: a nonempty repository name,
/// `-ghsa-`, and an identifier of three `-`-joined groups of four alphabet
/// characters; and a name without `-ghsa-` anywhere is no fork name.
pub proof fn lemma_fork_name_literal_shape(repo: Seq<char>, id: Seq<char>, name: Seq<char>)
    ensures
        repo.len() > 0 && is_ghsa_id(id) ==> is_advisory_fork_name(
            repo + seq!['-', 'g', 'h', 's', 'a', '-'] + id,
        ),
        (forall|i: int|
            0 <= i && i + 6 <= name.len() ==> #[trigger] name.subrange(i, i + 6) != seq![
                '-',
                'g',
                'h',
                's',
                'a',
                '-',
            ]) ==> !is_advisory_fork_name(name),
{
    lemma_advisory_fork_name_shape(repo + seq!['-', 'g', 'h', 's', 'a', '-'] + id);
    if repo.len() > 0 && is_ghsa_id(id) {
        assert(ghsa_separator() =~= seq!['-', 'g', 'h', 's', 'a', '-']);
        let n = repo + ghsa_separator() + id;
        assert(n == repo + ghsa_separator() + id);
    }
    if is_advisory_fork_name(name) {
        let k = name.len() - 20;
        assert(name.subrange(k, k + 6) == ghsa_separator());
        assert(ghsa_separator() =~= seq!['-', 'g', 'h', 's', 'a', '-']);
    }
}

} // verus!
