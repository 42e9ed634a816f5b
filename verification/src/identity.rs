use vstd::prelude::*;

verus! {

/// `p` is a prefix of `s`.
pub open spec fn is_prefix_of(p: Seq<u8>, s: Seq<u8>) -> bool {
    p.len() <= s.len() && s.subrange(0, p.len() as int) == p
}

/// An href that begins with the path-absolute marker `/`.
pub open spec fn is_path_absolute(href: Seq<u8>) -> bool {
    href.len() > 0 && href[0] == 47u8
}

/// The identity key of an href against a base origin: a path-absolute href is
/// already origin-relative and is its own key; an absolute href has the origin
/// prefix stripped; anything else is kept as it stands.
pub open spec fn spec_normalize(href: Seq<u8>, origin: Seq<u8>) -> Seq<u8> {
    if is_path_absolute(href) {
        href
    } else if is_prefix_of(origin, href) {
        href.subrange(origin.len() as int, href.len() as int)
    } else {
        href
    }
}

/// True when the byte string `p` is a prefix of `s`.
pub fn prefix_matches(p: &Vec<u8>, s: &Vec<u8>) -> (r: bool)
    ensures
        r == is_prefix_of(p@, s@),
{
    if p.len() > s.len() {
        assert(!is_prefix_of(p@, s@));
        return false;
    }
    let mut i: usize = 0;
    while i < p.len()
        invariant
            i <= p.len(),
            p.len() <= s.len(),
            forall|j: int| 0 <= j < i ==> p@[j] == s@[j],
        decreases p.len() - i,
    {
        if p[i] != s[i] {
            assert(s@.subrange(0, p@.len() as int)[i as int] != p@[i as int]);
            return false;
        }
        i += 1;
    }
    assert(s@.subrange(0, p@.len() as int) =~= p@);
    true
}

/// Whole-byte-string equality.
pub fn bytes_eq(a: &Vec<u8>, b: &Vec<u8>) -> (r: bool)
    ensures
        r == (a@ == b@),
{
    let r = a.len() == b.len() && prefix_matches(a, b);
    proof {
        if a@.len() == b@.len() && is_prefix_of(a@, b@) {
            assert(a@ =~= b@);
        }
        if a@ == b@ {
            assert(b@.subrange(0, a@.len() as int) =~= a@);
        }
    }
    r
}

/// Canonicalize a raw href into the identity key used for deduplication and
/// as the persistence key. Pure and total on non-empty hrefs.
pub fn normalize(href: &Vec<u8>, origin: &Vec<u8>) -> (r: Vec<u8>)
    requires
        href@.len() > 0,
    ensures
        r@ == spec_normalize(href@, origin@),
{
    if href[0] == 47u8 {
        return href.clone();
    }
    if prefix_matches(origin, href) {
        let mut out: Vec<u8> = Vec::new();
        let mut i: usize = origin.len();
        while i < href.len()
            invariant
                origin@.len() <= i <= href@.len(),
                out@ == href@.subrange(origin@.len() as int, i as int),
            decreases href.len() - i,
        {
            out.push(href[i]);
            assert(out@ =~= href@.subrange(origin@.len() as int, i + 1 as int));
            i += 1;
        }
        assert(out@ =~= href@.subrange(origin@.len() as int, href@.len() as int));
        out
    } else {
        href.clone()
    }
}

/// Two textually different hrefs that denote the same resource — the
/// origin-relative form `p` and the absolute form `origin + p` — normalize to
/// the identical identity key, namely `p` itself.
pub proof fn lemma_normalize_identifies_resource(p: Seq<u8>, origin: Seq<u8>)
    requires
        is_path_absolute(p),
        origin.len() > 0,
        origin[0] != 47u8,
    ensures
        spec_normalize(p, origin) == p,
        spec_normalize(origin + p, origin) == p,
{
    let abs = origin + p;
    assert(abs[0] == origin[0]);
    assert(!is_path_absolute(abs));
    assert(abs.subrange(0, origin.len() as int) =~= origin);
    assert(is_prefix_of(origin, abs));
    assert(abs.subrange(origin.len() as int, abs.len() as int) =~= p);
}

} // verus!
