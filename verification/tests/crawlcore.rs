use crawlcore::classify::{classify, eligible, ClassifyRules, Spawn};
use crawlcore::driver::{drive, FetchTable};
use crawlcore::identity::normalize;
use crawlcore::page::PageType;
use crawlcore::record::{decode_records, encode_record, Record};
use crawlcore::scrape::{build_rows, scrape_listing, trim_ascii, ItemFields};
use crawlcore::task::{process_page, task_step, FetchOutcome, TaskEffect};
use crawlcore::visited::VisitedSet;

fn b(s: &str) -> Vec<u8> {
    s.as_bytes().to_vec()
}

fn rules() -> ClassifyRules {
    ClassifyRules { detail_prefix: b("/memes/"), child_suffix: b("/children") }
}

#[test]
fn normalize_relative_and_absolute_agree() {
    let origin = b("https://knowyourmeme.com");
    let rel = normalize(&b("/memes/a"), &origin);
    let abs = normalize(&b("https://knowyourmeme.com/memes/a"), &origin);
    assert_eq!(rel, b("/memes/a"));
    assert_eq!(abs, b("/memes/a"));
    assert_eq!(rel, abs);
}

#[test]
fn normalize_keeps_foreign_absolute_urls() {
    let origin = b("https://knowyourmeme.com");
    assert_eq!(
        normalize(&b("https://other.example/x"), &origin),
        b("https://other.example/x")
    );
}

#[test]
fn visited_gate_grants_a_claim_once() {
    let mut v = VisitedSet::new();
    assert!(!v.contains(&b("/memes/a")));
    assert!(v.try_acquire(b("/memes/a")));
    assert!(!v.try_acquire(b("/memes/a")));
    assert!(v.contains(&b("/memes/a")));
    assert!(v.try_acquire(b("/memes/b")));
    v.release(&b("/memes/a"));
    assert!(!v.contains(&b("/memes/a")));
    assert!(v.try_acquire(b("/memes/a")));
    assert!(v.contains(&b("/memes/b")));
}

#[test]
fn listing_classification_keeps_only_detail_pages() {
    let links = vec![b("/memes/a"), b("/memes/b/children"), b("/other")];
    let spawns = classify(&rules(), PageType::Listing, &links);
    assert_eq!(spawns.len(), 1);
    assert_eq!(spawns[0].href, b("/memes/a"));
    assert_eq!(spawns[0].child_type, PageType::Leaf);
}

#[test]
fn leaf_classification_keeps_only_child_listings() {
    let links = vec![b("/memes/a/children"), b("/memes/a")];
    let spawns = classify(&rules(), PageType::Leaf, &links);
    assert_eq!(spawns.len(), 1);
    assert_eq!(spawns[0].href, b("/memes/a/children"));
    assert_eq!(spawns[0].child_type, PageType::Listing);
}

#[test]
fn eligibility_follows_the_href_shape() {
    let r = rules();
    assert!(eligible(&r, PageType::Listing, &b("/memes/a")));
    assert!(!eligible(&r, PageType::Listing, &b("/memes/")));
    assert!(!eligible(&r, PageType::Listing, &b("/memes/a/b")));
    assert!(!eligible(&r, PageType::Listing, &b("/other/a")));
    assert!(eligible(&r, PageType::Leaf, &b("/memes/a/children")));
    assert!(eligible(&r, PageType::Leaf, &b("/children")));
    assert!(!eligible(&r, PageType::Leaf, &b("/memes/a")));
}

#[test]
fn record_frame_has_exact_bytes() {
    let r = Record { key: b("k"), payload: b("pay") };
    let enc = encode_record(&r);
    assert_eq!(enc, vec![0, 0, 0, 1, 107, 0, 0, 0, 3, 112, 97, 121]);
}

#[test]
fn store_parses_back_into_the_records_written() {
    let recs: Vec<(Vec<u8>, Vec<u8>)> = vec![
        (b("/memes/a"), b("body a")),
        (b("/memes/b"), vec![0u8, 1, 2, 255]),
        (b(""), b("")),
    ];
    let mut store: Vec<u8> = Vec::new();
    for (k, p) in &recs {
        store.extend(encode_record(&Record { key: k.clone(), payload: p.clone() }));
    }
    let back = decode_records(&store).unwrap();
    assert_eq!(back.len(), recs.len());
    for (i, (k, p)) in recs.iter().enumerate() {
        assert_eq!(&back[i].key, k);
        assert_eq!(&back[i].payload, p);
    }
}

#[test]
fn truncated_store_fails_to_parse() {
    let enc = encode_record(&Record { key: b("k"), payload: b("abc") });
    let cut = enc[..enc.len() - 1].to_vec();
    assert!(decode_records(&cut).is_none());
    assert!(decode_records(&vec![1u8, 2, 3]).is_none());
    assert_eq!(decode_records(&Vec::new()).unwrap().len(), 0);
}

#[test]
fn failure_releases_the_claim_and_emits_nothing() {
    let mut v = VisitedSet::new();
    let id = b("/memes/a");
    assert!(v.try_acquire(id.clone()));
    let eff = task_step(&mut v, &rules(), PageType::Leaf, &id, FetchOutcome::Failure);
    assert!(matches!(eff, TaskEffect::Released));
    assert!(!v.contains(&id));
    assert!(v.try_acquire(id.clone()));
}

#[test]
fn success_emits_one_record_keyed_by_the_identity() {
    let mut v = VisitedSet::new();
    let id = b("/memes/a");
    assert!(v.try_acquire(id.clone()));
    let html = b("<html><body><a href=\"/memes/x\">x</a><a href=\"/memes/y/children\">y</a><a href=\"/other\">o</a></body></html>");
    let eff = task_step(
        &mut v,
        &rules(),
        PageType::Listing,
        &id,
        FetchOutcome::Success { body: html.clone() },
    );
    match eff {
        TaskEffect::Emit { record, spawns } => {
            assert_eq!(record.key, id);
            assert_eq!(record.payload, html);
            assert_eq!(spawns.len(), 1);
            assert_eq!(spawns[0].href, b("/memes/x"));
            assert_eq!(spawns[0].child_type, PageType::Leaf);
        }
        TaskEffect::Released => panic!("expected an emitted record"),
    }
    assert!(v.contains(&id));
}

#[test]
fn leaf_page_spawns_child_listings() {
    let html = b("<html><body><a href=\"/memes/a/children\">c</a><a href=\"/memes/a\">a</a></body></html>");
    let (record, spawns) = process_page(&rules(), PageType::Leaf, &b("/memes/a"), html.clone());
    assert_eq!(record.key, b("/memes/a"));
    assert_eq!(record.payload, html);
    assert_eq!(spawns.len(), 1);
    assert_eq!(spawns[0].href, b("/memes/a/children"));
    assert_eq!(spawns[0].child_type, PageType::Listing);
}

#[test]
fn trim_strips_ascii_whitespace() {
    assert_eq!(trim_ascii(&b("  hi there\n")), b("hi there"));
    assert_eq!(trim_ascii(&b(" \t\r\n ")), b(""));
    assert_eq!(trim_ascii(&b("x")), b("x"));
    assert_eq!(trim_ascii(&b("")), b(""));
}

fn full_item(href: &str, nsfw: bool) -> ItemFields {
    ItemFields {
        is_ad: false,
        nsfw,
        href: Some(b(href)),
        desc: Some(b("d")),
        title: Some(b("t")),
        img: Some(b("u")),
        heading: Some(b(" H ")),
    }
}

fn ad_item() -> ItemFields {
    ItemFields {
        is_ad: true,
        nsfw: false,
        href: None,
        desc: None,
        title: None,
        img: None,
        heading: None,
    }
}

#[test]
fn rows_are_numbered_past_skipped_ads() {
    let items = vec![full_item("/memes/a", false), ad_item(), full_item("/memes/b", true)];
    let rows = build_rows(&items, 100).unwrap();
    assert_eq!(rows.len(), 2);
    assert_eq!(rows[0].href, b("/memes/a"));
    assert_eq!(rows[0].idx, 100);
    assert_eq!(rows[0].heading, b("H"));
    assert!(!rows[0].nsfw);
    assert_eq!(rows[1].href, b("/memes/b"));
    assert_eq!(rows[1].idx, 102);
    assert!(rows[1].nsfw);
}

#[test]
fn a_missing_field_fails_the_rows() {
    let mut it = full_item("/memes/a", false);
    it.img = None;
    assert!(build_rows(&vec![it], 0).is_none());
    let mut it2 = full_item("/memes/a", false);
    it2.is_ad = true;
    it2.img = None;
    assert_eq!(build_rows(&vec![it2], 0).unwrap().len(), 0);
}

#[test]
fn scrape_listing_reads_the_cells() {
    let cell_x = "<td><a href=\"/memes/x\">l</a><img alt=\"da\" title=\"ta\" data-src=\"ua\"><h2> X Y </h2></td>";
    let cell_ad = "<td><div class=\"ad-unit-wrapper\"></div></td>";
    let cell_z = "<td><a href=\"/memes/z\">l</a><img alt=\"dz\" title=\"tz\" data-src=\"uz\"><h2>Z</h2><div class=\"label-nsfw\"></div></td>";
    let html = b(&format!(
        "<html><body><table class=\"infinite\"><tr>{cell_x}{cell_ad}{cell_z}</tr></table></body></html>"
    ));
    let rows = scrape_listing(&html, 9616).unwrap();
    assert_eq!(rows.len(), 2);
    assert_eq!(rows[0].href, b("/memes/x"));
    assert_eq!(rows[0].desc, b("da"));
    assert_eq!(rows[0].title, b("ta"));
    assert_eq!(rows[0].img, b("ua"));
    assert_eq!(rows[0].heading, b("X Y"));
    assert!(!rows[0].nsfw);
    assert_eq!(rows[0].idx, 9616);
    assert_eq!(rows[1].href, b("/memes/z"));
    assert_eq!(rows[1].heading, b("Z"));
    assert!(rows[1].nsfw);
    assert_eq!(rows[1].idx, 9618);
}

#[test]
fn scrape_listing_missing_attribute_is_a_failure() {
    let html = b("<html><body><table class=\"infinite\"><tr><td><a href=\"/memes/x\">l</a><img alt=\"da\" title=\"ta\"><h2>X</h2></td></tr></table></body></html>");
    assert!(scrape_listing(&html, 0).is_none());
}

#[test]
fn driver_settles_and_claims_each_identity_once() {
    let table = FetchTable {
        entries: vec![
            (
                b("/seed"),
                Some(b("<a href=\"/memes/a\">a</a><a href=\"/memes/b\">b</a><a href=\"/other\">o</a>")),
            ),
            (b("/memes/a"), Some(b("<a href=\"/memes/a/children\">c</a>"))),
            (b("/memes/b"), None),
            (
                b("/memes/a/children"),
                Some(b("<a href=\"/memes/a\">again</a><a href=\"/memes/c\">c</a>")),
            ),
            (b("/memes/c"), Some(b("<p>done</p>"))),
        ],
    };
    let seeds = vec![Spawn { href: b("/seed"), child_type: PageType::Listing }];
    let records = drive(&table, &rules(), &b("https://knowyourmeme.com"), seeds);
    let mut keys: Vec<Vec<u8>> = records.iter().map(|r| r.key.clone()).collect();
    keys.sort();
    assert_eq!(
        keys,
        vec![b("/memes/a"), b("/memes/a/children"), b("/memes/c"), b("/seed")]
    );
    for r in &records {
        let body = table
            .entries
            .iter()
            .find(|e| e.0 == r.key)
            .unwrap()
            .1
            .clone()
            .unwrap();
        assert_eq!(r.payload, body);
    }
}

#[test]
fn scrape_listing_of_an_empty_page_has_no_rows() {
    let html = b("<html><body><p>nothing here</p></body></html>");
    assert_eq!(scrape_listing(&html, 0).unwrap().len(), 0);
}
