//! The pattern matcher.
//!
//! A channel name is classified, at subscription time, as a *pattern* if it
//! contains one of the wildcard characters `*` or `?`, else as a *literal*.
//! At publish time each stored pattern is matched against the published
//! channel name under glob semantics: `*` matches any run of characters
//! (including the empty run), `?` matches exactly one character, and every
//! other character matches itself only.
//!
//! Matching is case-sensitive, anchored to the whole channel name (not a
//! substring), and has no escaping: a wildcard character cannot be made to
//! stand for itself.

use vstd::prelude::*;
use vstd::string::StrSliceExecFns;

verus! {

/// Glob matching of `name` against `pattern`: `*` matches any run of
/// characters including the empty one, `?` matches exactly one character,
/// and any other character matches itself only. The whole of `name` must
/// be consumed.
pub open spec fn glob_matches(pattern: Seq<char>, name: Seq<char>) -> bool
    decreases pattern.len() + name.len(),
{
    if pattern.len() == 0 {
        name.len() == 0
    } else if pattern[0] == '*' {
        glob_matches(pattern.skip(1), name)
            || (name.len() > 0 && glob_matches(pattern, name.skip(1)))
    } else {
        name.len() > 0 && (pattern[0] == '?' || pattern[0] == name[0])
            && glob_matches(pattern.skip(1), name.skip(1))
    }
}

/// A channel name is a pattern when it holds a wildcard character.
pub open spec fn channel_is_pattern_spec(name: Seq<char>) -> bool {
    name.contains('*') || name.contains('?')
}

/// Classifies a channel name: `true` when it holds a wildcard character
/// (`*` or `?`) and is therefore stored in the pattern table.
pub fn channel_is_pattern(channel: &str) -> (r: bool)
    ensures
        r == channel_is_pattern_spec(channel@),
{
    let n = channel.unicode_len();
    let mut i: usize = 0;
    while i < n
        invariant
            n == channel@.len(),
            i <= n,
            forall|j: int| 0 <= j < i ==> channel@[j] != '*' && channel@[j] != '?',
        decreases n - i,
    {
        let c = channel.get_char(i);
        if c == '*' || c == '?' {
            assert(channel@[i as int] == c);
            return true;
        }
        i = i + 1;
    }
    assert(forall|j: int| 0 <= j < channel@.len() ==> channel@[j] != '*' && channel@[j] != '?');
    false
}

/// Collects the characters of a string slice into a vector.
fn chars_of(s: &str) -> (r: Vec<char>)
    ensures
        r@ == s@,
{
    let n = s.unicode_len();
    let mut r: Vec<char> = Vec::new();
    let mut i: usize = 0;
    while i < n
        invariant
            n == s@.len(),
            i <= n,
            r@ == s@.take(i as int),
        decreases n - i,
    {
        let c = s.get_char(i);
        r.push(c);
        proof {
            assert(s@.take(i + 1 as int) =~= s@.take(i as int).push(s@[i as int]));
        }
        i = i + 1;
    }
    proof {
        assert(s@.take(n as int) =~= s@);
    }
    r
}

/// Matches `name` (from position `j`) against `pattern` (from position `i`),
/// following the recursion of `glob_matches`.
fn match_at(pattern: &Vec<char>, name: &Vec<char>, i: usize, j: usize) -> (r: bool)
    requires
        i <= pattern@.len(),
        j <= name@.len(),
    ensures
        r == glob_matches(pattern@.skip(i as int), name@.skip(j as int)),
    decreases pattern@.len() - i + name@.len() - j,
{
    if i == pattern.len() {
        proof {
            assert(pattern@.skip(i as int) =~= Seq::<char>::empty());
        }
        j == name.len()
    } else {
        let pc = pattern[i];
        proof {
            assert(pattern@.skip(i as int)[0] == pattern@[i as int]);
            assert(pattern@.skip(i as int).skip(1) =~= pattern@.skip(i + 1 as int));
        }
        if pc == '*' {
            if match_at(pattern, name, i + 1, j) {
                return true;
            }
            if j < name.len() {
                proof {
                    assert(name@.skip(j as int).skip(1) =~= name@.skip(j + 1 as int));
                }
                match_at(pattern, name, i, j + 1)
            } else {
                false
            }
        } else if j == name.len() {
            false
        } else {
            let nc = name[j];
            proof {
                assert(name@.skip(j as int)[0] == name@[j as int]);
                assert(name@.skip(j as int).skip(1) =~= name@.skip(j + 1 as int));
            }
            if pc == '?' || pc == nc {
                match_at(pattern, name, i + 1, j + 1)
            } else {
                false
            }
        }
    }
}

/// Decides whether the published channel `name` satisfies the stored
/// `pattern` under the glob semantics of [`glob_matches`].
pub fn pattern_matches(pattern: &str, name: &str) -> (r: bool)
    ensures
        r == glob_matches(pattern@, name@),
{
    let p = chars_of(pattern);
    let n = chars_of(name);
    let r = match_at(&p, &n, 0, 0);
    proof {
        assert(p@.skip(0) =~= p@);
        assert(n@.skip(0) =~= n@);
    }
    r
}

} // verus!
