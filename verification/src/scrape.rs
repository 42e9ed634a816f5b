use vstd::prelude::*;

verus! {

/// The named fields read out of one listing cell's markup, each absent when
/// the cell lacks the expected structure.
pub struct ItemFields {
    /// The cell is an ad unit and carries no item.
    pub is_ad: bool,
    /// The cell carries the not-safe-for-work label.
    pub nsfw: bool,
    /// href attribute of the cell's first anchor.
    pub href: Option<Vec<u8>>,
    /// alt attribute of the cell's first image.
    pub desc: Option<Vec<u8>>,
    /// title attribute of the cell's first image.
    pub title: Option<Vec<u8>>,
    /// data-src attribute of the cell's first image.
    pub img: Option<Vec<u8>>,
    /// Text of the cell's first heading, its parts joined by single spaces.
    pub heading: Option<Vec<u8>>,
}

/// The mathematical model of a cell's fields.
pub struct ItemFieldsModel {
    pub is_ad: bool,
    pub nsfw: bool,
    pub href: Option<Seq<u8>>,
    pub desc: Option<Seq<u8>>,
    pub title: Option<Seq<u8>>,
    pub img: Option<Seq<u8>>,
    pub heading: Option<Seq<u8>>,
}

pub open spec fn view_opt(o: Option<Vec<u8>>) -> Option<Seq<u8>> {
    match o {
        Some(v) => Some(v@),
        None => None,
    }
}

impl View for ItemFields {
    type V = ItemFieldsModel;

    open spec fn view(&self) -> ItemFieldsModel {
        ItemFieldsModel {
            is_ad: self.is_ad,
            nsfw: self.nsfw,
            href: view_opt(self.href),
            desc: view_opt(self.desc),
            title: view_opt(self.title),
            img: view_opt(self.img),
            heading: view_opt(self.heading),
        }
    }
}

/// One stored row for a listing item: the named fields and the item's
/// position index across the whole crawl.
pub struct MemeRow {
    pub href: Vec<u8>,
    pub desc: Vec<u8>,
    pub title: Vec<u8>,
    pub img: Vec<u8>,
    pub heading: Vec<u8>,
    pub nsfw: bool,
    pub idx: i64,
}

/// The mathematical model of a stored row.
pub struct MemeRowModel {
    pub href: Seq<u8>,
    pub desc: Seq<u8>,
    pub title: Seq<u8>,
    pub img: Seq<u8>,
    pub heading: Seq<u8>,
    pub nsfw: bool,
    pub idx: int,
}

impl View for MemeRow {
    type V = MemeRowModel;

    open spec fn view(&self) -> MemeRowModel {
        MemeRowModel {
            href: self.href@,
            desc: self.desc@,
            title: self.title@,
            img: self.img@,
            heading: self.heading@,
            nsfw: self.nsfw,
            idx: self.idx as int,
        }
    }
}

/// The markup of each listing cell of a page, in document order.
pub uninterp spec fn listing_cells_of(body: Seq<u8>) -> Seq<Seq<u8>>;

/// The value of attribute `attr` of the first element matching the selector
/// `css` in the given markup, if both exist.
pub uninterp spec fn attr_of(markup: Seq<u8>, css: Seq<char>, attr: Seq<char>) -> Option<Seq<u8>>;

/// Whether some element in the given markup matches the selector `css`.
pub uninterp spec fn matches_css(markup: Seq<u8>, css: Seq<char>) -> bool;

/// The text parts of the first element matching the selector `css` in the
/// given markup, joined by single spaces, if such an element exists.
pub uninterp spec fn text_of(markup: Seq<u8>, css: Seq<char>) -> Option<Seq<u8>>;

/// Relies on scraper::Html::parse_document: the markup of each listing cell,
/// in document order. The result depends on the page bytes alone.
#[verifier::external_body]
fn extract_listing_cells(body: &Vec<u8>) -> (r: Vec<Vec<u8>>)
    ensures
        r@.map_values(|v: Vec<u8>| v@) == listing_cells_of(body@),
{
    let text = String::from_utf8_lossy(body);
    let doc = scraper::Html::parse_document(&text);
    let cells = scraper::Selector::parse(".infinite td").unwrap();
    doc.select(&cells).map(|it| it.html().into_bytes()).collect()
}

/// Relies on scraper::Html::parse_fragment and scraper::ElementRef::attr:
/// one named extraction rule, a selector and an attribute name, applied to a
/// piece of markup. The result depends on the arguments alone.
#[verifier::external_body]
fn select_attr(markup: &Vec<u8>, css: &str, attr: &str) -> (r: Option<Vec<u8>>)
    ensures
        view_opt(r) == attr_of(markup@, css@, attr@),
{
    let doc = scraper::Html::parse_fragment(&String::from_utf8_lossy(markup));
    let sel = scraper::Selector::parse(css).ok()?;
    doc.select(&sel).next().and_then(|e| e.attr(attr)).map(|v| v.as_bytes().to_vec())
}

/// Relies on scraper::Html::parse_fragment and scraper::Html::select:
/// whether any element of the markup matches the selector. The result
/// depends on the arguments alone.
#[verifier::external_body]
fn select_exists(markup: &Vec<u8>, css: &str) -> (r: bool)
    ensures
        r == matches_css(markup@, css@),
{
    let doc = scraper::Html::parse_fragment(&String::from_utf8_lossy(markup));
    match scraper::Selector::parse(css) {
        Ok(sel) => doc.select(&sel).next().is_some(),
        Err(_) => false,
    }
}

/// Relies on scraper::Html::parse_fragment and scraper::ElementRef::text:
/// the space-joined text of the first element matching the selector. The
/// result depends on the arguments alone.
#[verifier::external_body]
fn select_text(markup: &Vec<u8>, css: &str) -> (r: Option<Vec<u8>>)
    ensures
        view_opt(r) == text_of(markup@, css@),
{
    let doc = scraper::Html::parse_fragment(&String::from_utf8_lossy(markup));
    let sel = scraper::Selector::parse(css).ok()?;
    doc.select(&sel).next().map(|h| h.text().collect::<Vec<&str>>().join(" ").into_bytes())
}

/// The named fields of one listing cell: the extraction rules the stored row
/// wants, applied to the cell's markup.
pub open spec fn spec_cell_fields(cell: Seq<u8>) -> ItemFieldsModel {
    ItemFieldsModel {
        is_ad: matches_css(cell, ".ad-unit-wrapper"@),
        nsfw: matches_css(cell, ".label-nsfw"@),
        href: attr_of(cell, "a"@, "href"@),
        desc: attr_of(cell, "img"@, "alt"@),
        title: attr_of(cell, "img"@, "title"@),
        img: attr_of(cell, "img"@, "data-src"@),
        heading: text_of(cell, "h2"@),
    }
}

/// Apply the row's extraction rules to one listing cell.
fn extract_cell_fields(cell: &Vec<u8>) -> (r: ItemFields)
    ensures
        r@ == spec_cell_fields(cell@),
{
    ItemFields {
        is_ad: select_exists(cell, ".ad-unit-wrapper"),
        nsfw: select_exists(cell, ".label-nsfw"),
        href: select_attr(cell, "a", "href"),
        desc: select_attr(cell, "img", "alt"),
        title: select_attr(cell, "img", "title"),
        img: select_attr(cell, "img", "data-src"),
        heading: select_text(cell, "h2"),
    }
}

/// ASCII whitespace, which a row's heading is trimmed of at both ends.
pub open spec fn is_ascii_ws(b: u8) -> bool {
    b == 32u8 || b == 9u8 || b == 10u8 || b == 13u8
}

pub open spec fn spec_trim_start(s: Seq<u8>) -> Seq<u8>
    decreases s.len(),
{
    if s.len() > 0 && is_ascii_ws(s[0]) {
        spec_trim_start(s.skip(1))
    } else {
        s
    }
}

pub open spec fn spec_trim_end(s: Seq<u8>) -> Seq<u8>
    decreases s.len(),
{
    if s.len() > 0 && is_ascii_ws(s.last()) {
        spec_trim_end(s.drop_last())
    } else {
        s
    }
}

/// `s` without its leading and trailing ASCII whitespace.
pub open spec fn spec_trim(s: Seq<u8>) -> Seq<u8> {
    spec_trim_end(spec_trim_start(s))
}

fn is_ws(b: u8) -> (r: bool)
    ensures
        r == is_ascii_ws(b),
{
    b == 32u8 || b == 9u8 || b == 10u8 || b == 13u8
}

/// Strip ASCII whitespace from both ends of a byte string.
pub fn trim_ascii(s: &Vec<u8>) -> (r: Vec<u8>)
    ensures
        r@ == spec_trim(s@),
{
    let n = s.len();
    let mut lo: usize = 0;
    proof {
        assert(s@.skip(0) =~= s@);
    }
    while lo < n && is_ws(s[lo])
        invariant
            lo <= n,
            n == s@.len(),
            spec_trim_start(s@) == spec_trim_start(s@.skip(lo as int)),
        decreases n - lo,
    {
        proof {
            assert(s@.skip(lo as int).skip(1) =~= s@.skip(lo + 1));
        }
        lo += 1;
    }
    let ghost t = s@.skip(lo as int);
    proof {
        if lo == n {
            assert(t =~= Seq::<u8>::empty());
        }
        assert(spec_trim_start(s@) == t);
    }
    let mut hi: usize = n - lo;
    proof {
        assert(t.take(hi as int) =~= t);
    }
    while hi > 0 && is_ws(s[lo + hi - 1])
        invariant
            hi <= n - lo,
            lo <= n,
            n == s@.len(),
            t == s@.skip(lo as int),
            spec_trim_end(t) == spec_trim_end(t.take(hi as int)),
        decreases hi,
    {
        proof {
            assert(t.take(hi as int).last() == t[hi - 1]);
            assert(t.take(hi as int).drop_last() =~= t.take(hi - 1));
        }
        hi -= 1;
    }
    proof {
        if hi == 0 {
            assert(t.take(0) =~= Seq::<u8>::empty());
        } else {
            assert(t.take(hi as int).last() == t[hi - 1]);
        }
        assert(spec_trim_end(t) == t.take(hi as int));
    }
    let out = crate::record::copy_range(s, lo, hi);
    proof {
        assert(s@.subrange(lo as int, lo + hi) =~= t.take(hi as int));
    }
    out
}

/// The row a single cell yields at index `idx`: all five named fields must be
/// present, the heading is trimmed, and an absent field is an extraction
/// failure.
pub open spec fn spec_row_of(it: ItemFieldsModel, idx: int) -> Option<MemeRowModel> {
    match (it.href, it.desc, it.title, it.img, it.heading) {
        (Some(h), Some(d), Some(t), Some(im), Some(hd)) => Some(MemeRowModel {
            href: h,
            desc: d,
            title: t,
            img: im,
            heading: spec_trim(hd),
            nsfw: it.nsfw,
            idx: idx,
        }),
        _ => None,
    }
}

/// The rows of a whole listing: cell `i` is numbered `base + i`; ad cells are
/// skipped but still counted toward the numbering; a non-ad cell with a
/// missing field fails the whole page.
pub open spec fn spec_rows(items: Seq<ItemFieldsModel>, base: int) -> Option<Seq<MemeRowModel>>
    decreases items.len(),
{
    if items.len() == 0 {
        Some(Seq::empty())
    } else {
        match spec_rows(items.drop_last(), base) {
            None => None,
            Some(rs) => {
                let it = items.last();
                if it.is_ad {
                    Some(rs)
                } else {
                    match spec_row_of(it, base + items.len() - 1) {
                        None => None,
                        Some(r) => Some(rs.push(r)),
                    }
                }
            },
        }
    }
}

proof fn lemma_rows_none_extends(items: Seq<ItemFieldsModel>, base: int, k: int)
    requires
        0 <= k <= items.len(),
        spec_rows(items.take(k), base) is None,
    ensures
        spec_rows(items, base) is None,
    decreases items.len() - k,
{
    if k < items.len() {
        assert(items.take(k + 1).drop_last() =~= items.take(k));
        lemma_rows_none_extends(items, base, k + 1);
    } else {
        assert(items.take(k) =~= items);
    }
}

/// Assemble the stored rows from the extracted cells of one listing page,
/// numbering from `base`.
pub fn build_rows(items: &Vec<ItemFields>, base: i64) -> (out: Option<Vec<MemeRow>>)
    requires
        0 <= base,
        base + items@.len() <= i64::MAX,
    ensures
        match out {
            Some(v) => spec_rows(items@.map_values(|it: ItemFields| it@), base as int)
                == Some(v@.map_values(|r: MemeRow| r@)),
            None => spec_rows(items@.map_values(|it: ItemFields| it@), base as int) is None,
        },
{
    let ghost models = items@.map_values(|it: ItemFields| it@);
    let mut out: Vec<MemeRow> = Vec::new();
    let mut i: usize = 0;
    while i < items.len()
        invariant
            i <= items@.len(),
            0 <= base,
            base + items@.len() <= i64::MAX,
            models == items@.map_values(|it: ItemFields| it@),
            spec_rows(models.take(i as int), base as int)
                == Some(out@.map_values(|r: MemeRow| r@)),
        decreases items.len() - i,
    {
        proof {
            assert(models.take(i + 1 as int).drop_last() =~= models.take(i as int));
            assert(models.take(i + 1 as int).last() == models[i as int]);
        }
        let it = &items[i];
        if !it.is_ad {
            match (&it.href, &it.desc, &it.title, &it.img, &it.heading) {
                (Some(h), Some(d), Some(t), Some(im), Some(hd)) => {
                    let ghost before = out@.map_values(|r: MemeRow| r@);
                    let row = MemeRow {
                        href: h.clone(),
                        desc: d.clone(),
                        title: t.clone(),
                        img: im.clone(),
                        heading: trim_ascii(hd),
                        nsfw: it.nsfw,
                        idx: base + i as i64,
                    };
                    out.push(row);
                    proof {
                        assert(out@.map_values(|r: MemeRow| r@) =~= before.push(out@.last()@));
                    }
                },
                _ => {
                    proof {
                        assert(spec_row_of(models[i as int], base + i) is None);
                        assert(spec_rows(models.take(i + 1 as int), base as int) is None);
                        lemma_rows_none_extends(models, base as int, i + 1 as int);
                    }
                    return None;
                },
            }
        }
        i += 1;
    }
    proof {
        assert(models.take(items@.len() as int) =~= models);
    }
    Some(out)
}

/// The model of a listing page's items: each cell's named fields.
pub open spec fn spec_listing_items(body: Seq<u8>) -> Seq<ItemFieldsModel> {
    listing_cells_of(body).map_values(|c: Seq<u8>| spec_cell_fields(c))
}

/// Scrape one listing page into its stored rows, numbered from `base`. `None`
/// when a non-ad cell misses an expected field — an extraction failure — or
/// when the page holds more cells than the numbering can count.
pub fn scrape_listing(body: &Vec<u8>, base: i64) -> (out: Option<Vec<MemeRow>>)
    requires
        0 <= base,
    ensures
        match out {
            Some(v) => {
                &&& base + spec_listing_items(body@).len() <= i64::MAX
                &&& spec_rows(spec_listing_items(body@), base as int)
                    == Some(v@.map_values(|r: MemeRow| r@))
            },
            None => {
                ||| spec_rows(spec_listing_items(body@), base as int) is None
                ||| base + spec_listing_items(body@).len() > i64::MAX
            },
        },
{
    let cells = extract_listing_cells(body);
    let mut fields: Vec<ItemFields> = Vec::new();
    let mut i: usize = 0;
    while i < cells.len()
        invariant
            i <= cells@.len(),
            cells@.map_values(|v: Vec<u8>| v@) == listing_cells_of(body@),
            fields@.map_values(|it: ItemFields| it@) == spec_listing_items(body@).take(i as int),
        decreases cells.len() - i,
    {
        let ghost before = fields@.map_values(|it: ItemFields| it@);
        let f = extract_cell_fields(&cells[i]);
        proof {
            assert(cells@.map_values(|v: Vec<u8>| v@)[i as int] == cells@[i as int]@);
            assert(spec_listing_items(body@)[i as int]
                == spec_cell_fields(listing_cells_of(body@)[i as int]));
        }
        fields.push(f);
        proof {
            assert(fields@.map_values(|it: ItemFields| it@) =~= before.push(fields@.last()@));
            assert(before.push(fields@.last()@) =~= spec_listing_items(body@).take(i + 1 as int));
        }
        i += 1;
    }
    proof {
        assert(spec_listing_items(body@).take(cells@.len() as int) =~= spec_listing_items(body@));
    }
    let cap: i64 = i64::MAX - base;
    if fields.len() as u64 > cap as u64 {
        return None;
    }
    build_rows(&fields, base)
}

} // verus!
