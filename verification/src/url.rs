//! Service URL handling: base URLs as the caller configures them are
//! normalized before an API path is appended.

use vstd::prelude::*;
use crate::text::{trim_of, trim_seq};

verus! {

/// The sequence with its trailing slashes removed.
pub open spec fn strip_trailing_slashes(s: Seq<char>) -> Seq<char>
    decreases s.len(),
{
    if s.len() > 0 && s.last() == '/' {
        strip_trailing_slashes(s.drop_last())
    } else {
        s
    }
}

/// A configured base URL, normalized: surrounding whitespace and trailing
/// slashes removed.
pub open spec fn normalized_base_url(s: Seq<char>) -> Seq<char> {
    strip_trailing_slashes(trim_seq(s))
}

proof fn lemma_strip_slashes_at(s: Seq<char>, i: int)
    requires
        0 <= i <= s.len(),
        forall|j: int| i <= j < s.len() ==> s[j] == '/',
        i > 0 ==> s[i - 1] != '/',
    ensures
        strip_trailing_slashes(s) == s.subrange(0, i),
    decreases s.len() - i,
{
    if i < s.len() {
        let t = s.drop_last();
        assert(s.last() == '/');
        assert(forall|j: int| i <= j < t.len() ==> t[j] == '/');
        lemma_strip_slashes_at(t, i);
        assert(t.subrange(0, i) =~= s.subrange(0, i));
    } else {
        assert(s.subrange(0, i) =~= s);
    }
}

/// The normalized form of a configured base URL, matching
/// `normalized_base_url`.
pub fn normalize_base_url(base_url: &str) -> (r: String)
    ensures
        r@ == normalized_base_url(base_url@),
{
    let t: &str = trim_of(base_url);
    let n: usize = t.unicode_len();
    let mut b: usize = n;
    while b > 0 && t.get_char(b - 1) == '/'
        invariant
            0 <= b <= n,
            n == t@.len(),
            forall|j: int| b <= j < n ==> t@[j] == '/',
        decreases b,
    {
        b = b - 1;
    }
    proof {
        lemma_strip_slashes_at(t@, b as int);
    }
    t.substring_char(0, b).to_owned()
}

/// The URL of an API path under a configured base: the normalized base
/// followed by the path.
pub fn api_endpoint(base_url: &str, path: &str) -> (r: String)
    ensures
        r@ == normalized_base_url(base_url@) + path@,
{
    let mut s = normalize_base_url(base_url);
    s.append(path);
    s
}

} // verus!
