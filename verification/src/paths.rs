use vstd::prelude::*;

verus! {

/// The byte `/`.
pub open spec fn slash() -> u8 {
    0x2F
}

/// `part` appended to `base` as `PathBuf::push` does on Unix, where a path is
/// its bytes: an absolute `part` (one that starts with `/`) replaces `base`;
/// otherwise a `/` separates the two unless `base` is empty or already ends
/// with one.
pub open spec fn joined(base: Seq<u8>, part: Seq<u8>) -> Seq<u8> {
    if part.len() > 0 && part[0] == slash() {
        part
    } else if base.len() == 0 || base.last() == slash() {
        base + part
    } else {
        base + seq![slash()] + part
    }
}

/// `v` with the bytes of `s` appended.
pub fn append_bytes(v: &mut Vec<u8>, s: &[u8])
    ensures
        final(v)@ == old(v)@ + s@,
{
    let ghost start = v@;
    let mut i: usize = 0;
    while i < s.len()
        invariant
            i <= s@.len(),
            v@ == start + s@.subrange(0, i as int),
        decreases s@.len() - i,
    {
        v.push(s[i]);
        i += 1;
        assert(v@ =~= start + s@.subrange(0, i as int));
    }
    assert(s@.subrange(0, i as int) =~= s@);
}

/// Joins `part` onto the path `base`. The library's paths are Unix paths: the
/// bytes of the path, `/`-separated.
pub fn join_path(base: &[u8], part: &[u8]) -> (r: Vec<u8>)
    ensures
        r@ == joined(base@, part@),
{
    let mut r: Vec<u8> = Vec::new();
    if part.len() > 0 && part[0] == 0x2F {
        append_bytes(&mut r, part);
        assert(r@ =~= part@);
        return r;
    }
    append_bytes(&mut r, base);
    let n = base.len();
    if n > 0 && base[n - 1] != 0x2F {
        r.push(0x2F);
    }
    append_bytes(&mut r, part);
    proof {
        if n > 0 {
            assert(base@.last() == base@[n - 1]);
        }
        assert(r@ =~= joined(base@, part@));
    }
    r
}

/// Calls `dirs::cache_dir`, the user's cache directory, as the bytes of its
/// path (`into_encoded_bytes`, which on Unix are the path's own bytes). The
/// answer depends on the platform and the environment (`$XDG_CACHE_HOME`,
/// `$HOME`), so nothing is stated of it.
#[verifier::external_body]
pub fn user_cache_dir() -> (r: Option<Vec<u8>>) {
    match dirs::cache_dir() {
        Some(path) => Some(path.into_os_string().into_encoded_bytes()),
        None => None,
    }
}

/// An absolute `part` replaces whatever it is joined to.
pub proof fn lemma_absolute_part_replaces_base(base: Seq<u8>, part: Seq<u8>)
    requires
        part.len() > 0,
        part[0] == slash(),
    ensures
        joined(base, part) == part,
{
}


/// Joining a relative part keeps the base as the start, the part as the end,
/// and puts at most one `/` between them.
pub proof fn lemma_relative_part_appended(base: Seq<u8>, part: Seq<u8>)
    requires
        part.len() == 0 || part[0] != slash(),
    ensures
        joined(base, part).subrange(0, base.len() as int) == base,
        joined(base, part).subrange(
            joined(base, part).len() - part.len(),
            joined(base, part).len() as int,
        ) == part,
        joined(base, part).len() == base.len() + part.len() || (joined(base, part).len()
            == base.len() + part.len() + 1 && joined(base, part)[base.len() as int] == slash()),
{
    let r = joined(base, part);
    assert(r.subrange(0, base.len() as int) =~= base);
    assert(r.subrange(r.len() - part.len(), r.len() as int) =~= part);
}

} // verus!
