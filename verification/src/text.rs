//! Text helpers that the URL and key builders share.

use vstd::prelude::*;
use vstd::string::*;

verus! {

/// `s` without the run of `c` at its end.
pub open spec fn trim_trailing(s: Seq<char>, c: char) -> Seq<char>
    decreases s.len(),
{
    if s.len() > 0 && s.last() == c {
        trim_trailing(s.drop_last(), c)
    } else {
        s
    }
}

/// The characters of `s`, one by one.
pub fn chars_of(s: &str) -> (chars: Vec<char>)
    ensures
        chars@ == s@,
{
    broadcast use vstd::string::group_string_axioms;

    let mut chars: Vec<char> = Vec::new();
    for c in it: s.chars()
        invariant
            it.seq() == s@,
            chars@ == it.seq().subrange(0, it.index() as int),
    {
        chars.push(c);
        proof {
            assert(chars@ =~= it.seq().subrange(0, it.index() + 1));
        }
    }
    proof {
        assert(chars@ =~= s@);
    }
    chars
}

/// The length of `chars` without the run of `c` at its end.
pub fn trimmed_len(chars: &Vec<char>, c: char) -> (n: usize)
    ensures
        n <= chars@.len(),
        trim_trailing(chars@, c) == chars@.subrange(0, n as int),
{
    let mut n: usize = chars.len();
    proof {
        assert(chars@.subrange(0, n as int) =~= chars@);
    }
    while n > 0 && chars[n - 1] == c
        invariant
            n <= chars@.len(),
            trim_trailing(chars@, c) == trim_trailing(chars@.subrange(0, n as int), c),
        decreases n,
    {
        proof {
            let here = chars@.subrange(0, n as int);
            assert(here.last() == chars@[n - 1]);
            assert(here.drop_last() =~= chars@.subrange(0, n - 1));
        }
        n -= 1;
    }
    proof {
        let here = chars@.subrange(0, n as int);
        if n > 0 {
            assert(here.last() == chars@[n - 1]);
        }
    }
    n
}

} // verus!
