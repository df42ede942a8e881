use vstd::prelude::*;

use crate::paths::append_bytes;

verus! {

/// A program to run: its name, its arguments (bytes, as Unix takes them), and
/// the variables added to its environment.
pub struct ProcessInvocation {
    pub program: String,
    pub args: Vec<Vec<u8>>,
    pub env: Vec<(String, String)>,
}

/// The arguments as byte strings.
pub open spec fn arg_bytes(args: Seq<Vec<u8>>) -> Seq<Seq<u8>> {
    args.map_values(|a: Vec<u8>| a@)
}

/// The variables of an environment as pairs of texts.
pub open spec fn env_texts(env: Seq<(String, String)>) -> Seq<(Seq<char>, Seq<char>)> {
    env.map_values(|p: (String, String)| (p.0@, p.1@))
}

/// An argument holding the bytes `s`.
pub fn arg(s: &[u8]) -> (a: Vec<u8>)
    ensures
        a@ == s@,
{
    let mut a: Vec<u8> = Vec::new();
    append_bytes(&mut a, s);
    assert(a@ =~= s@);
    a
}

} // verus!
