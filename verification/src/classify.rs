use vstd::prelude::*;
use crate::identity::is_prefix_of;
use crate::page::PageType;

verus! {

/// `suf` is a suffix of `s`.
pub open spec fn is_suffix_of(suf: Seq<u8>, s: Seq<u8>) -> bool {
    suf.len() <= s.len() && s.subrange(s.len() - suf.len(), s.len() as int) == suf
}

/// The matching policy, carried as data so it can be swapped without touching
/// scheduling: what a detail page looks like and what a child listing looks
/// like.
pub struct ClassifyRules {
    /// A detail-page href is a single path segment under this prefix.
    pub detail_prefix: Vec<u8>,
    /// A child-listing href ends in this suffix.
    pub child_suffix: Vec<u8>,
}

/// A link to crawl next: a raw href and the page type expected behind it.
pub struct Spawn {
    pub href: Vec<u8>,
    pub child_type: PageType,
}

/// A detail-page href: a path segment under the fixed prefix, with no deeper
/// sub-path after it.
pub open spec fn is_detail_href(href: Seq<u8>, prefix: Seq<u8>) -> bool {
    &&& is_prefix_of(prefix, href)
    &&& href.len() > prefix.len()
    &&& forall|i: int| prefix.len() <= i < href.len() ==> href[i] != 47u8
}

/// A child-listing href: one ending in the fixed suffix.
pub open spec fn is_child_listing_href(href: Seq<u8>, suffix: Seq<u8>) -> bool {
    is_suffix_of(suffix, href)
}

/// Whether a raw link on a page of type `t` is eligible for further crawling.
pub open spec fn spec_eligible(t: PageType, href: Seq<u8>, prefix: Seq<u8>, suffix: Seq<u8>) -> bool {
    match t {
        PageType::Listing => is_detail_href(href, prefix),
        PageType::Leaf => is_child_listing_href(href, suffix),
    }
}

/// The page type an eligible link spawns: listings link to leaves, leaves
/// link back to further listings.
pub open spec fn spec_child_type(t: PageType) -> PageType {
    match t {
        PageType::Listing => PageType::Leaf,
        PageType::Leaf => PageType::Listing,
    }
}

/// The eligible links of `links`, in order, each paired with the child page
/// type; ineligible links are dropped silently.
pub open spec fn spec_classify(t: PageType, links: Seq<Seq<u8>>, prefix: Seq<u8>, suffix: Seq<u8>) -> Seq<Seq<u8>>
    decreases links.len(),
{
    if links.len() == 0 {
        Seq::empty()
    } else {
        let rest = spec_classify(t, links.drop_last(), prefix, suffix);
        if spec_eligible(t, links.last(), prefix, suffix) {
            rest.push(links.last())
        } else {
            rest
        }
    }
}

/// True when the byte string `suf` is a suffix of `s`.
fn suffix_matches(suf: &Vec<u8>, s: &Vec<u8>) -> (r: bool)
    ensures
        r == is_suffix_of(suf@, s@),
{
    if suf.len() > s.len() {
        assert(!is_suffix_of(suf@, s@));
        return false;
    }
    let base: usize = s.len() - suf.len();
    let mut i: usize = 0;
    while i < suf.len()
        invariant
            i <= suf.len(),
            suf.len() <= s.len(),
            base == s.len() - suf.len(),
            forall|j: int| 0 <= j < i ==> suf@[j] == s@[base + j],
        decreases suf.len() - i,
    {
        if suf[i] != s[base + i] {
            assert(s@.subrange(s@.len() - suf@.len(), s@.len() as int)[i as int] != suf@[i as int]);
            return false;
        }
        i += 1;
    }
    assert(s@.subrange(s@.len() - suf@.len(), s@.len() as int) =~= suf@);
    true
}

/// True when `href` is a single path segment under `prefix`.
fn detail_matches(href: &Vec<u8>, prefix: &Vec<u8>) -> (r: bool)
    ensures
        r == is_detail_href(href@, prefix@),
{
    if !crate::identity::prefix_matches(prefix, href) {
        return false;
    }
    if href.len() <= prefix.len() {
        return false;
    }
    let mut i: usize = prefix.len();
    while i < href.len()
        invariant
            prefix@.len() <= i <= href@.len(),
            is_prefix_of(prefix@, href@),
            href@.len() > prefix@.len(),
            forall|j: int| prefix@.len() <= j < i ==> href@[j] != 47u8,
        decreases href.len() - i,
    {
        if href[i] == 47u8 {
            return false;
        }
        i += 1;
    }
    true
}

/// Whether a raw link on a page of type `t` is eligible for further crawling.
pub fn eligible(rules: &ClassifyRules, t: PageType, href: &Vec<u8>) -> (r: bool)
    ensures
        r == spec_eligible(t, href@, rules.detail_prefix@, rules.child_suffix@),
{
    match t {
        PageType::Listing => detail_matches(href, &rules.detail_prefix),
        PageType::Leaf => suffix_matches(&rules.child_suffix, href),
    }
}

/// Decide which of a page's links are eligible for further crawling and what
/// page type each spawns. Pure: depends only on the page's type and the raw
/// link targets; unmatched hrefs are dropped silently.
pub fn classify(rules: &ClassifyRules, t: PageType, links: &Vec<Vec<u8>>) -> (r: Vec<Spawn>)
    ensures
        r@.map_values(|s: Spawn| s.href@)
            == spec_classify(t, links@.map_values(|l: Vec<u8>| l@), rules.detail_prefix@, rules.child_suffix@),
        forall|i: int| 0 <= i < r@.len() ==> (#[trigger] r@[i]).child_type == spec_child_type(t),
{
    let mut out: Vec<Spawn> = Vec::new();
    let child = match t {
        PageType::Listing => PageType::Leaf,
        PageType::Leaf => PageType::Listing,
    };
    let mut i: usize = 0;
    while i < links.len()
        invariant
            i <= links@.len(),
            child == spec_child_type(t),
            out@.map_values(|s: Spawn| s.href@)
                == spec_classify(t, links@.map_values(|l: Vec<u8>| l@).take(i as int), rules.detail_prefix@, rules.child_suffix@),
            forall|k: int| 0 <= k < out@.len() ==> (#[trigger] out@[k]).child_type == spec_child_type(t),
        decreases links.len() - i,
    {
        let ghost seqs = links@.map_values(|l: Vec<u8>| l@);
        assert(seqs.take(i + 1 as int).drop_last() =~= seqs.take(i as int));
        assert(seqs.take(i + 1 as int).last() == seqs[i as int]);
        if eligible(rules, t, &links[i]) {
            out.push(Spawn { href: links[i].clone(), child_type: child });
            assert(out@.map_values(|s: Spawn| s.href@)
                =~= out@.drop_last().map_values(|s: Spawn| s.href@).push(seqs[i as int]));
        }
        i += 1;
    }
    assert(links@.map_values(|l: Vec<u8>| l@).take(links@.len() as int)
        =~= links@.map_values(|l: Vec<u8>| l@));
    out
}

} // verus!
