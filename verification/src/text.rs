//! Character-level helpers: moving between `String` and `Vec<char>`, copying
//! ranges, and locating the doubled marker characters that delimit value
//! references.

use vstd::prelude::*;
use vstd::string::StrSliceExecFns;

verus! {

/// Relies on `String::push`: appends exactly the given character.
#[verifier::external_body]
fn push_char(s: &mut String, c: char)
    ensures
        final(s)@ == old(s)@.push(c),
{
    s.push(c);
}

/// The characters of `s`, in order, as a vector.
pub fn chars_vec(s: &str) -> (r: Vec<char>)
    ensures
        r@ == s@,
{
    let n = s.unicode_len();
    let mut r: Vec<char> = Vec::new();
    let mut i: usize = 0;
    while i < n
        invariant
            n == s@.len(),
            i <= n,
            r@ == s@.take(i as int),
        decreases n - i,
    {
        r.push(s.get_char(i));
        proof {
            assert(s@.take(i as int).push(s@[i as int]) =~= s@.take(i as int + 1));
        }
        i = i + 1;
    }
    proof {
        assert(s@.take(n as int) =~= s@);
    }
    r
}

/// A string holding exactly the given characters.
pub fn string_from_chars(v: &Vec<char>) -> (r: String)
    ensures
        r@ == v@,
{
    let mut s = String::new();
    let n = v.len();
    let mut i: usize = 0;
    while i < n
        invariant
            n == v.len(),
            i <= n,
            s@ == v@.take(i as int),
        decreases n - i,
    {
        push_char(&mut s, v[i]);
        proof {
            assert(v@.take(i as int).push(v@[i as int]) =~= v@.take(i as int + 1));
        }
        i = i + 1;
    }
    proof {
        assert(v@.take(n as int) =~= v@);
    }
    s
}

/// A copy of `v` from position `from` on.
pub fn vec_skip(v: &Vec<char>, from: usize) -> (r: Vec<char>)
    requires
        from <= v@.len(),
    ensures
        r@ == v@.skip(from as int),
{
    let n = v.len();
    let mut r: Vec<char> = Vec::new();
    let mut i: usize = from;
    while i < n
        invariant
            n == v.len(),
            from <= i <= n,
            r@ == v@.subrange(from as int, i as int),
        decreases n - i,
    {
        r.push(v[i]);
        proof {
            assert(v@.subrange(from as int, i as int).push(v@[i as int]) =~= v@.subrange(
                from as int,
                i as int + 1,
            ));
        }
        i = i + 1;
    }
    proof {
        assert(v@.subrange(from as int, n as int) =~= v@.skip(from as int));
    }
    r
}

/// A copy of the first `to` elements of `v`.
pub fn vec_take(v: &Vec<char>, to: usize) -> (r: Vec<char>)
    requires
        to <= v@.len(),
    ensures
        r@ == v@.take(to as int),
{
    let mut r: Vec<char> = Vec::new();
    let mut i: usize = 0;
    while i < to
        invariant
            to <= v@.len(),
            i <= to,
            r@ == v@.take(i as int),
        decreases to - i,
    {
        r.push(v[i]);
        proof {
            assert(v@.take(i as int).push(v@[i as int]) =~= v@.take(i as int + 1));
        }
        i = i + 1;
    }
    r
}

/// Two adjacent copies of `c` stand at position `i`.
pub open spec fn double_at(s: Seq<char>, c: char, i: int) -> bool {
    0 <= i && i + 1 < s.len() && s[i] == c && s[i + 1] == c
}

/// The first position where `c` stands doubled, scanning left to right.
pub open spec fn find_double(s: Seq<char>, c: char) -> Option<int>
    decreases s.len(),
{
    if s.len() < 2 {
        None
    } else if s[0] == c && s[1] == c {
        Some(0)
    } else {
        match find_double(s.drop_first(), c) {
            None => None,
            Some(j) => Some(j + 1),
        }
    }
}

/// `find_double` returns the leftmost doubled position, or `None` exactly
/// when there is none.
pub proof fn lemma_find_double_props(s: Seq<char>, c: char)
    ensures
        match find_double(s, c) {
            None => forall|i: int| !double_at(s, c, i),
            Some(i) => double_at(s, c, i) && (forall|k: int| k < i ==> !double_at(s, c, k)),
        },
    decreases s.len(),
{
    if s.len() < 2 {
    } else if s[0] == c && s[1] == c {
    } else {
        let t = s.drop_first();
        lemma_find_double_props(t, c);
        match find_double(t, c) {
            None => {
                assert forall|i: int| !double_at(s, c, i) by {
                    if i > 0 {
                        assert(!double_at(t, c, i - 1));
                        if double_at(s, c, i) {
                            assert(t[i - 1] == s[i]);
                            assert(t[i] == s[i + 1]);
                        }
                    }
                }
            },
            Some(j) => {
                assert(double_at(t, c, j));
                assert(t[j] == s[j + 1]);
                assert(t[j + 1] == s[j + 2]);
                assert(double_at(s, c, j + 1));
                assert forall|k: int| k < j + 1 implies !double_at(s, c, k) by {
                    if k > 0 {
                        assert(!double_at(t, c, k - 1));
                        if double_at(s, c, k) {
                            assert(t[k - 1] == s[k]);
                            assert(t[k] == s[k + 1]);
                        }
                    }
                }
            },
        }
    }
}

/// Finds the first doubled occurrence of `c` in `v`, if any.
#[verifier::loop_isolation(false)]
pub fn find_double_in(v: &Vec<char>, c: char) -> (r: Option<usize>)
    ensures
        match r {
            Some(i) => find_double(v@, c) == Some(i as int),
            None => find_double(v@, c) is None,
        },
{
    let n = v.len();
    if n < 2 {
        return None;
    }
    let mut i: usize = 0;
    while i + 1 < n
        invariant
            i < n,
            forall|k: int| 0 <= k < i ==> !double_at(v@, c, k),
        decreases n - i,
    {
        if v[i] == c && v[i + 1] == c {
            proof {
                lemma_find_double_props(v@, c);
                assert(double_at(v@, c, i as int));
                match find_double(v@, c) {
                    None => {
                        assert(false);
                    },
                    Some(j) => {
                        if j < i as int {
                            assert(double_at(v@, c, j));
                            assert(false);
                        }
                        if j > i as int {
                            assert(!double_at(v@, c, i as int));
                            assert(false);
                        }
                    },
                }
            }
            return Some(i);
        }
        i = i + 1;
    }
    proof {
        lemma_find_double_props(v@, c);
        assert forall|k: int| !double_at(v@, c, k) by {
            if 0 <= k < i as int {
                assert(!double_at(v@, c, k));
            }
        }
        match find_double(v@, c) {
            None => {},
            Some(j) => {
                assert(!double_at(v@, c, j));
                assert(false);
            },
        }
    }
    None
}

} // verus!
