use vstd::prelude::*;
use crate::classify::{classify, spec_classify, spec_child_type, ClassifyRules, Spawn};
use crate::page::PageType;
use crate::record::Record;
use crate::visited::VisitedSet;

verus! {

/// What a fetch attempt produced: the page body on a success, or a failure —
/// a transport error, a non-success response, or an unparseable body, which
/// the crawl treats all alike.
pub enum FetchOutcome {
    Success { body: Vec<u8> },
    Failure,
}

/// The href attribute of every anchor element in a page's markup, in
/// document order.
pub uninterp spec fn hrefs_of(body: Seq<u8>) -> Seq<Seq<u8>>;

/// Relies on scraper::Html::parse_document and scraper::Selector::parse("a"):
/// collects the href attribute of every anchor element, in document order.
/// The result depends on the page bytes alone.
#[verifier::external_body]
fn extract_anchor_hrefs(body: &Vec<u8>) -> (r: Vec<Vec<u8>>)
    ensures
        r@.map_values(|v: Vec<u8>| v@) == hrefs_of(body@),
{
    let text = String::from_utf8_lossy(body);
    let doc = scraper::Html::parse_document(&text);
    let anchors = scraper::Selector::parse("a").unwrap();
    doc.select(&anchors)
        .filter_map(|el| el.attr("href"))
        .map(|h| h.as_bytes().to_vec())
        .collect()
}

/// The effects a finished fetch asks of its surroundings: the one record to
/// append and the children to spawn, or nothing, the claim having been
/// released.
pub enum TaskEffect {
    Emit { record: Record, spawns: Vec<Spawn> },
    Released,
}

/// On a successful fetch: the page's raw content becomes the one sink record,
/// keyed by the claimed identity, and the page's anchor hrefs are classified
/// into the child tasks to spawn.
pub fn process_page(rules: &ClassifyRules, page_type: PageType, identity: &Vec<u8>, body: Vec<u8>) -> (r: (Record, Vec<Spawn>))
    ensures
        r.0@.key == identity@,
        r.0@.payload == body@,
        r.1@.map_values(|s: Spawn| s.href@)
            == spec_classify(page_type, hrefs_of(body@), rules.detail_prefix@, rules.child_suffix@),
        forall|i: int| 0 <= i < r.1@.len() ==> (#[trigger] r.1@[i]).child_type == spec_child_type(page_type),
{
    let links = extract_anchor_hrefs(&body);
    let spawns = classify(rules, page_type, &links);
    (Record { key: identity.clone(), payload: body }, spawns)
}

/// The decision step of a fetch task, run after admission and after the fetch
/// itself came back. A failure releases the claim — the identity leaves the
/// visited set, eligible for a later attempt — and produces no record. A
/// success leaves the claim in place for good, emits exactly one record keyed
/// by the task's identity, carrying the page's raw content, and spawns the
/// classified children.
pub fn task_step(visited: &mut VisitedSet, rules: &ClassifyRules, page_type: PageType, identity: &Vec<u8>, outcome: FetchOutcome) -> (eff: TaskEffect)
    ensures
        match outcome {
            FetchOutcome::Failure => {
                &&& eff is Released
                &&& final(visited).members() == old(visited).members().remove(identity@)
                &&& !final(visited).members().contains(identity@)
            },
            FetchOutcome::Success { body } => {
                &&& final(visited).members() == old(visited).members()
                &&& match eff {
                    TaskEffect::Emit { record, spawns } => {
                        &&& record@.key == identity@
                        &&& record@.payload == body@
                        &&& spawns@.map_values(|s: Spawn| s.href@)
                            == spec_classify(page_type, hrefs_of(body@), rules.detail_prefix@, rules.child_suffix@)
                        &&& forall|i: int| 0 <= i < spawns@.len()
                            ==> (#[trigger] spawns@[i]).child_type == spec_child_type(page_type)
                    },
                    TaskEffect::Released => false,
                }
            },
        },
{
    match outcome {
        FetchOutcome::Failure => {
            visited.release(identity);
            TaskEffect::Released
        },
        FetchOutcome::Success { body } => {
            let (record, spawns) = process_page(rules, page_type, identity, body);
            TaskEffect::Emit { record, spawns }
        },
    }
}

} // verus!
