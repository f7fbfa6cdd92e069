//! Small shared string utilities: character-level appending and copying
//! helpers used across the library.

use vstd::prelude::*;

verus! {

/// Relies on `String::push`: appends exactly the one character.
#[verifier::external_body]
pub(crate) fn push_char(s: &mut String, c: char)
    ensures
        final(s)@ == old(s)@ + seq![c],
{
    s.push(c)
}

/// A copy of a string vector with the same content.
pub(crate) fn clone_string_vec(v: &Vec<String>) -> (r: Vec<String>)
    ensures
        r@ == v@,
{
    let n = v.len();
    let mut r: Vec<String> = Vec::new();
    let mut i: usize = 0;
    while i < n
        invariant
            i <= n,
            n == v@.len(),
            r@ == v@.take(i as int),
        decreases n - i,
    {
        r.push(v[i].clone());
        proof {
            assert(v@.take(i as int).push(v@[i as int]) =~= v@.take(i as int + 1));
        }
        i = i + 1;
    }
    proof {
        assert(v@.take(n as int) =~= v@);
    }
    r
}

/// A copy of an optional string, equal to the original.
pub(crate) fn clone_opt_string(s: &Option<String>) -> (r: Option<String>)
    ensures
        r == *s,
{
    match s {
        Some(v) => Some(v.clone()),
        None => None,
    }
}

/// The characters of a string, in order.
pub(crate) fn chars_of(s: &str) -> (r: Vec<char>)
    ensures
        r@ == s@,
{
    let n = vstd::string::StrSliceExecFns::unicode_len(s);
    let mut r: Vec<char> = Vec::new();
    let mut i: usize = 0;
    while i < n
        invariant
            i <= n,
            n == s@.len(),
            r@ == s@.take(i as int),
        decreases n - i,
    {
        r.push(vstd::string::StrSliceExecFns::get_char(s, i));
        proof {
            assert(s@.take(i as int).push(s@[i as int]) =~= s@.take(i as int + 1));
        }
        i = i + 1;
    }
    proof {
        assert(s@.take(n as int) =~= s@);
    }
    r
}

/// The characters collected into a string.
pub(crate) fn string_from_chars(cs: &Vec<char>, from: usize) -> (r: String)
    requires
        from <= cs@.len(),
    ensures
        r@ == cs@.skip(from as int),
{
    let n = cs.len();
    let mut r = String::new();
    let mut i: usize = from;
    while i < n
        invariant
            from <= i <= n,
            n == cs@.len(),
            r@ == cs@.subrange(from as int, i as int),
        decreases n - i,
    {
        push_char(&mut r, cs[i]);
        proof {
            assert(cs@.subrange(from as int, i as int).push(cs@[i as int]) =~= cs@.subrange(
                from as int,
                i as int + 1,
            ));
        }
        i = i + 1;
    }
    proof {
        assert(cs@.subrange(from as int, n as int) =~= cs@.skip(from as int));
    }
    r
}

} // verus!
