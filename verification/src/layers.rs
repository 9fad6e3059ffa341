//! Request-path rewriting: the `.aspx` redirect into the `/out` proxy and the
//! wildcard trimming applied to proxied paths.
use vstd::prelude::*;
use vstd::utf8::*;
use vstd::string::StringSliceAdditionalSpecFns;
use crate::text::{chars_find, chars_of, contains_seq, is_last_match, matches_at, starts_with_seq, string_from_chars, bytes_find, bytes_match_at, bytes_rfind};

verus! {

broadcast use vstd::string::group_string_axioms, vstd::utf8::encode_utf8_valid_utf8;

/// The layer that wraps a service in a [`RewriteService`].
#[derive(Clone, Copy)]
pub struct RewriteLayer;

/// A service whose requests for `.aspx` pages are redirected under `/out`.
#[derive(Clone)]
pub struct RewriteService<S> {
    pub inner: S,
}

impl RewriteLayer {
    /// Wraps `inner` so that its requests go through the `.aspx` redirect.
    pub fn layer<S>(&self, inner: S) -> (svc: RewriteService<S>)
        ensures
            svc.inner == inner,
    {
        RewriteService { inner }
    }
}

/// The characters of the marker that triggers the redirect.
pub open spec fn aspx_marker() -> Seq<char> {
    seq!['.', 'a', 's', 'p', 'x']
}

/// The characters of the prefix under which redirected requests are served.
pub open spec fn out_prefix() -> Seq<char> {
    seq!['/', 'o', 'u', 't']
}

/// The path-and-query a request is redirected to, if any: `orig` placed under
/// `/out` when it mentions `.aspx`, and nothing otherwise.
pub open spec fn spec_aspx_target(orig: Seq<char>) -> Option<Seq<char>> {
    if contains_seq(orig, aspx_marker()) {
        Some(out_prefix() + orig)
    } else {
        None
    }
}

impl<S> RewriteService<S> {
    /// Decides where a request whose path-and-query is `orig` is sent: when it
    /// mentions `.aspx` it is moved under `/out`, otherwise it is left alone.
    pub fn redirect_target(orig: &str) -> (r: Option<String>)
        ensures
            r matches Some(t) ==> spec_aspx_target(orig@) == Some(t@),
            r is None ==> spec_aspx_target(orig@) is None,
            contains_seq(orig@, seq!['.', 'a', 's', 'p', 'x']) ==> (r matches Some(t) && t@
                == seq!['/', 'o', 'u', 't'] + orig@),
            !contains_seq(orig@, seq!['.', 'a', 's', 'p', 'x']) ==> r is None,
    {
        let chars = chars_of(orig);
        let marker: [char; 5] = ['.', 'a', 's', 'p', 'x'];
        assert(marker@ =~= aspx_marker());
        match chars_find(chars.as_slice(), &marker) {
            Some(_) => {
                let mut out: Vec<char> = vec!['/', 'o', 'u', 't'];
                let mut rest = chars;
                out.append(&mut rest);
                assert(out@ =~= out_prefix() + orig@);
                Some(string_from_chars(out.as_slice()))
            },
            None => None,
        }
    }
}

/// A path rewriter that keeps, of the proxied path, what follows the route's
/// prefix: everything from the route's wildcard segment `/{*..}` on when the
/// route has one, or the path with the route's literal prefix removed.
#[derive(Debug, Clone, PartialEq, Eq)]
pub struct TrimToWildcard(pub String);

/// The bytes of the wildcard segment opener `/{*`.
pub open spec fn wildcard_opener() -> Seq<u8> {
    seq![0x2Fu8, 0x7Bu8, 0x2Au8]
}

/// Where, in the bytes of the path, the kept suffix starts.
pub open spec fn trim_start(route: Seq<u8>, path: Seq<u8>) -> int {
    if contains_seq(route, wildcard_opener()) {
        choose|i: int| is_last_match(route, wildcard_opener(), i)
    } else if contains_seq(path, route) {
        route.len() as int
    } else {
        0
    }
}

/// The inputs on which trimming is defined: a wildcard position must fall on
/// a character boundary of the path, and a route prefix found in the path must
/// begin it.
pub open spec fn trim_defined(route: Seq<u8>, path: Seq<u8>) -> bool {
    if contains_seq(route, wildcard_opener()) {
        is_char_boundary(path, trim_start(route, path))
    } else if contains_seq(path, route) {
        starts_with_seq(path, route)
    } else {
        true
    }
}

/// The rightmost occurrence of a pattern is unique.
proof fn lemma_last_match_unique(s: Seq<u8>, pat: Seq<u8>, i: int)
    requires
        is_last_match(s, pat, i),
    ensures
        (choose|j: int| is_last_match(s, pat, j)) == i,
{
    let j = choose|j: int| is_last_match(s, pat, j);
    assert(is_last_match(s, pat, j));
    if j < i {
        assert(!matches_at(s, pat, i));
    } else if i < j {
        assert(!matches_at(s, pat, j));
    }
}

/// A valid UTF-8 prefix of a valid UTF-8 sequence ends on a character boundary.
proof fn lemma_prefix_is_char_boundary(a: Seq<u8>, b: Seq<u8>)
    requires
        valid_utf8(a),
        valid_utf8(b),
        a.len() <= b.len(),
        b.subrange(0, a.len() as int) == a,
    ensures
        is_char_boundary(b, a.len() as int),
    decreases a.len(),
{
    if a.len() == 0 {
    } else {
        assert(b[0] == a[0]) by {
            assert(b.subrange(0, a.len() as int)[0] == b[0]);
        }
        let k = length_of_first_scalar(a);
        assert(length_of_first_scalar(b) == k);
        assert(k <= a.len());
        let pa = pop_first_scalar(a);
        let pb = pop_first_scalar(b);
        assert(pb.subrange(0, pa.len() as int) =~= pa) by {
            assert forall|m: int| 0 <= m < pa.len() implies pb.subrange(0, pa.len() as int)[m]
                == pa[m] by {
                assert(pa[m] == a[k + m]);
                assert(pb[m] == b[k + m]);
                assert(b.subrange(0, a.len() as int)[k + m] == b[k + m]);
            }
        }
        lemma_prefix_is_char_boundary(pa, pb);
    }
}

impl TrimToWildcard {
    /// Whether this rewriter is defined on `path` (see [`trim_defined`]).
    pub fn accepts(&self, path: &str) -> (b: bool)
        ensures
            b == trim_defined(encode_utf8(self.0@), path.spec_bytes()),
    {
        let route = self.0.as_str().as_bytes();
        let p = path.as_bytes();
        let opener: [u8; 3] = [0x2Fu8, 0x7Bu8, 0x2Au8];
        assert(opener@ =~= wildcard_opener());
        match bytes_rfind(route, &opener) {
            Some(i) => {
                proof {
                    lemma_last_match_unique(route@, wildcard_opener(), i as int);
                }
                path.is_char_boundary(i)
            },
            None => {
                if bytes_find(p, route).is_some() {
                    bytes_match_at(p, route, 0)
                } else {
                    true
                }
            },
        }
    }

    /// The part of `path` that is forwarded: the bytes of `path` from
    /// [`trim_start`] on. A route without a wildcard and not found in the path
    /// leaves the path unchanged.
    pub fn rewrite<'a>(&self, path: &'a str) -> (r: &'a str)
        requires
            trim_defined(encode_utf8(self.0@), path.spec_bytes()),
        ensures
            r.spec_bytes() == path.spec_bytes().subrange(
                trim_start(encode_utf8(self.0@), path.spec_bytes()),
                path.spec_bytes().len() as int,
            ),
    {
        let route = self.0.as_str().as_bytes();
        let p = path.as_bytes();
        let opener: [u8; 3] = [0x2Fu8, 0x7Bu8, 0x2Au8];
        assert(opener@ =~= wildcard_opener());
        match bytes_rfind(route, &opener) {
            Some(i) => {
                proof {
                    lemma_last_match_unique(route@, wildcard_opener(), i as int);
                }
                let (_, rest) = path.split_at(i);
                rest
            },
            None => {
                if bytes_find(p, route).is_some() {
                    proof {
                        lemma_prefix_is_char_boundary(route@, p@);
                    }
                    let (_, rest) = path.split_at(route.len());
                    rest
                } else {
                    proof {
                        assert(p@.subrange(0, p@.len() as int) =~= p@);
                    }
                    path
                }
            },
        }
    }
}

/// The forwarded path is always a tail of the requested one: trimming starts
/// within the path.
pub proof fn law_trim_keeps_a_tail(route: Seq<u8>, path: Seq<u8>)
    requires
        valid_utf8(path),
        trim_defined(route, path),
    ensures
        0 <= trim_start(route, path) <= path.len(),
{
    if contains_seq(route, wildcard_opener()) {
        let i = trim_start(route, path);
        assert(is_char_boundary(path, i));
        if i != 0 {
            assert(0 <= i <= path.len());
        }
    }
}

/// A rewriter with an empty route forwards every path whole.
pub proof fn law_empty_route_forwards_whole_path(path: Seq<u8>)
    ensures
        trim_defined(Seq::empty(), path),
        trim_start(Seq::empty(), path) == 0,
{
    let e = Seq::<u8>::empty();
    assert(!contains_seq(e, wildcard_opener())) by {
        assert forall|j: int| !#[trigger] matches_at(e, wildcard_opener(), j) by {}
    }
    assert(path.subrange(0, 0) =~= e);
    assert(matches_at(path, e, 0));
}

/// A route without a wildcard segment is removed from the front of a path it
/// begins, and the rest is forwarded.
pub proof fn law_route_prefix_is_removed(route: Seq<u8>, rest: Seq<u8>)
    requires
        !contains_seq(route, wildcard_opener()),
    ensures
        trim_defined(route, route + rest),
        (route + rest).subrange(trim_start(route, route + rest), (route + rest).len() as int)
            == rest,
{
    let path = route + rest;
    assert(path.subrange(0, route.len() as int) =~= route);
    assert(matches_at(path, route, 0));
    assert(path.subrange(route.len() as int, path.len() as int) =~= rest);
}

/// A request whose path-and-query mentions `.aspx` anywhere is redirected to
/// `/out` followed by the whole path-and-query; any other request is not.
pub proof fn law_aspx_requests_are_redirected(orig: Seq<char>)
    ensures
        contains_seq(orig, seq!['.', 'a', 's', 'p', 'x']) ==> spec_aspx_target(orig) == Some(
            seq!['/', 'o', 'u', 't'] + orig,
        ),
        !contains_seq(orig, seq!['.', 'a', 's', 'p', 'x']) ==> spec_aspx_target(orig) is None,
{
    assert(aspx_marker() =~= seq!['.', 'a', 's', 'p', 'x']);
    assert(out_prefix() =~= seq!['/', 'o', 'u', 't']);
}

/// A route with a wildcard segment keeps the path from the position of the
/// route's last `/{*` (the bytes of `opener`).
pub proof fn law_wildcard_position_is_last_opener(
    route: Seq<u8>,
    path: Seq<u8>,
    opener: Seq<u8>,
    i: int,
)
    requires
        opener == seq![0x2Fu8, 0x7Bu8, 0x2Au8],
        matches_at(route, opener, i),
        forall|j: int| i < j ==> !#[trigger] matches_at(route, opener, j),
    ensures
        trim_start(route, path) == i,
{
    assert(wildcard_opener() =~= opener);
    lemma_last_match_unique(route, wildcard_opener(), i);
}

} // verus!
