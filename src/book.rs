//! Loading a whole book: the reading order with each chapter's contents,
//! the stylesheets, the cover, the language and the table of contents.

use vstd::prelude::*;
use crate::archive::{read_entry, zip_entry_of};
use crate::error::LoadError;
use crate::markup::{opt_view, xml_tokens_of};
use crate::package::{
    find_id, find_item, items_view, lemma_manifest_ids_unique, load_package, loaded_package_of,
    package_path_of, strings_view, ItemView, ManifestItem,
};
use crate::segment::{html_nodes_of, segmented, wrap_words_with_translate};
use crate::text::{decode_lossy, ends_with, lossy_text_of, str_eq, str_ends_with};
use crate::toc::{entries_view, parse_epub_toc, toc_of, EntryView, TocEntry};

verus! {

/// A chapter of the reading order.
pub struct SpineItem {
    pub id: String,
    pub href: String,
    pub media_type: String,
    /// Word-wrapped markup for markup chapters, else the decoded text.
    pub contents: String,
}

/// A spine item as values.
pub struct SpineView {
    pub id: Seq<char>,
    pub href: Seq<char>,
    pub media_type: Seq<char>,
    pub contents: Seq<char>,
}

impl SpineItem {
    pub open spec fn view(&self) -> SpineView {
        SpineView {
            id: self.id@,
            href: self.href@,
            media_type: self.media_type@,
            contents: self.contents@,
        }
    }
}

/// The views of spine items.
pub open spec fn spine_view(v: Seq<SpineItem>) -> Seq<SpineView> {
    v.map_values(|x: SpineItem| x.view())
}

/// A loaded book.
pub struct Book {
    pub spine: Vec<SpineItem>,
    pub language: String,
    pub css: Vec<String>,
    pub cover_image: Option<Vec<u8>>,
    pub toc: Vec<TocEntry>,
    /// Why the table of contents is empty, when it could not be loaded.
    pub toc_error: Option<LoadError>,
    /// The resources whose entries could not be read, in manifest order.
    pub skipped: Vec<String>,
}

/// The chapters that the spine's ids name, in spine order, with empty
/// contents; ids that the manifest lacks are passed over.
pub open spec fn spine_skeleton(m: Seq<ItemView>, refs: Seq<Seq<char>>) -> Seq<SpineView>
    decreases refs.len(),
{
    if refs.len() == 0 {
        seq![]
    } else {
        let rest = spine_skeleton(m, refs.drop_last());
        let j = find_id(m, refs.last());
        if j >= 0 {
            rest.push(
                SpineView {
                    id: refs.last(),
                    href: m[j].href,
                    media_type: m[j].media_type,
                    contents: seq![],
                },
            )
        } else {
            rest
        }
    }
}

/// Whether a media type is markup.
pub open spec fn is_markup(media_type: Seq<char>) -> bool {
    media_type == "application/xhtml+xml"@ || media_type == "text/html"@
}

/// A chapter's contents from its bytes.
pub open spec fn chapter_text(bytes: Seq<u8>, media_type: Seq<char>) -> Seq<char> {
    if is_markup(media_type) {
        segmented(html_nodes_of(lossy_text_of(bytes)))
    } else {
        lossy_text_of(bytes)
    }
}

/// Whether `j` is the first chapter stored at `href`.
pub open spec fn first_at(sp: Seq<SpineView>, href: Seq<char>, j: int) -> bool {
    &&& 0 <= j < sp.len()
    &&& sp[j].href == href
    &&& forall|k: int| 0 <= k < j ==> sp[k].href != href
}

/// What resolving the manifest has gathered so far.
pub struct Gathered {
    pub spine: Seq<SpineView>,
    pub css: Seq<Seq<char>>,
    pub cover: Option<Seq<u8>>,
    pub skipped: Seq<Seq<char>>,
}

/// Files the bytes of one manifest item, read from `archive`.
pub open spec fn gather_step(g: Gathered, it: ItemView, cover_id: Option<Seq<char>>, archive: Seq<u8>) -> Gathered {
    match zip_entry_of(archive, it.href) {
        Err(_) => Gathered { skipped: g.skipped.push(it.href), ..g },
        Ok(bytes) => {
            let filed = if ends_with(it.href, ".css"@) {
                Gathered { css: g.css.push(lossy_text_of(bytes)), ..g }
            } else if exists|j: int| first_at(g.spine, it.href, j) {
                let j = choose|j: int| first_at(g.spine, it.href, j);
                Gathered {
                    spine: g.spine.update(
                        j,
                        SpineView {
                            contents: chapter_text(bytes, g.spine[j].media_type),
                            ..g.spine[j]
                        },
                    ),
                    ..g
                }
            } else {
                g
            };
            if cover_id == Some(it.id) {
                Gathered { cover: Some(bytes), ..filed }
            } else {
                filed
            }
        },
    }
}

/// What resolving the manifest items `items` gathers.
pub open spec fn gathered(
    items: Seq<ItemView>,
    start: Seq<SpineView>,
    cover_id: Option<Seq<char>>,
    archive: Seq<u8>,
) -> Gathered
    decreases items.len(),
{
    if items.len() == 0 {
        Gathered { spine: start, css: seq![], cover: None, skipped: seq![] }
    } else {
        gather_step(gathered(items.drop_last(), start, cover_id, archive), items.last(), cover_id, archive)
    }
}

/// The book's language: the one supplied from outside, else the package's
/// own, else `unknown`.
pub open spec fn language_choice(detected: Option<Seq<char>>, declared: Option<Seq<char>>) -> Seq<char> {
    match detected {
        Some(l) => l,
        None => match declared {
            Some(l) => l,
            None => "unknown"@,
        },
    }
}

/// The view of optional bytes.
pub open spec fn bytes_view(o: Option<Vec<u8>>) -> Option<Seq<u8>> {
    match o {
        Some(b) => Some(b@),
        None => None,
    }
}

/// Whether `b` is the book that `archive` holds, given the language
/// supplied from outside.
pub open spec fn book_matches(b: Book, archive: Seq<u8>, detected: Option<Seq<char>>) -> bool {
    let st = loaded_package_of(archive)->Ok_0;
    let g = gathered(st.manifest, spine_skeleton(st.manifest, st.spine_refs), st.cover_id, archive);
    &&& spine_view(b.spine@) == g.spine
    &&& strings_view(b.css@) == g.css
    &&& bytes_view(b.cover_image) == g.cover
    &&& b.language@ == language_choice(detected, st.language)
    &&& strings_view(b.skipped@) == g.skipped
    &&& entries_view(b.toc@) == match toc_of(archive) {
        Ok(e) => e,
        Err(_) => Seq::<EntryView>::empty(),
    }
    &&& b.toc_error == match toc_of(archive) {
        Ok(_) => None,
        Err(e) => Some(e),
    }
}

/// The chapters that the spine's ids name, with empty contents.
fn build_spine(m: &Vec<ManifestItem>, refs: &Vec<String>) -> (r: Vec<SpineItem>)
    ensures
        spine_view(r@) == spine_skeleton(items_view(m@), strings_view(refs@)),
{
    let mut spine: Vec<SpineItem> = Vec::new();
    let mut i: usize = 0;
    assert(strings_view(refs@).subrange(0, 0) =~= seq![]);
    assert(spine_view(spine@) =~= seq![]);
    while i < refs.len()
        invariant
            i <= refs@.len(),
            spine_view(spine@) == spine_skeleton(items_view(m@), strings_view(refs@).subrange(0, i as int)),
        decreases refs.len() - i,
    {
        let ghost pre = strings_view(refs@).subrange(0, i + 1);
        assert(pre.drop_last() =~= strings_view(refs@).subrange(0, i as int));
        match find_item(m, refs[i].as_str()) {
            Some(j) => {
                let it = SpineItem {
                    id: refs[i].clone(),
                    href: m[j].href.clone(),
                    media_type: m[j].media_type.clone(),
                    contents: String::new(),
                };
                let ghost old_spine = spine@;
                spine.push(it);
                assert(spine_view(spine@) =~= spine_view(old_spine).push(it.view()));
            },
            None => {},
        }
        i = i + 1;
    }
    assert(strings_view(refs@).subrange(0, refs@.len() as int) =~= strings_view(refs@));
    spine
}

/// The first chapter stored at `href`.
fn find_chapter(spine: &Vec<SpineItem>, href: &str) -> (r: Option<usize>)
    ensures
        match r {
            Some(j) => first_at(spine_view(spine@), href@, j as int),
            None => !exists|j: int| first_at(spine_view(spine@), href@, j),
        },
{
    let mut i: usize = 0;
    while i < spine.len()
        invariant
            i <= spine@.len(),
            forall|k: int| 0 <= k < i ==> spine_view(spine@)[k].href != href@,
        decreases spine.len() - i,
    {
        if str_eq(spine[i].href.as_str(), href) {
            return Some(i);
        }
        i = i + 1;
    }
    None
}

/// There is at most one first chapter at a given place.
proof fn lemma_first_at_unique(sp: Seq<SpineView>, href: Seq<char>, a: int, b: int)
    requires
        first_at(sp, href, a),
        first_at(sp, href, b),
    ensures
        a == b,
{
}

/// Whether a media type is markup.
fn media_is_markup(media_type: &str) -> (r: bool)
    ensures
        r == is_markup(media_type@),
{
    str_eq(media_type, "application/xhtml+xml") || str_eq(media_type, "text/html")
}

/// Reads every manifest item from the archive and files it: stylesheets,
/// chapter contents and the cover. Items that cannot be read are passed over.
fn gather(
    archive: &[u8],
    m: &Vec<ManifestItem>,
    cover_id: &Option<String>,
    spine: &mut Vec<SpineItem>,
    css: &mut Vec<String>,
    cover: &mut Option<Vec<u8>>,
    skipped: &mut Vec<String>,
)
    requires
        old(css)@.len() == 0,
        *old(cover) is None,
        old(skipped)@.len() == 0,
    ensures
        spine_view(final(spine)@) == gathered(items_view(m@), spine_view(old(spine)@), opt_view(*cover_id), archive@).spine,
        strings_view(final(css)@) == gathered(items_view(m@), spine_view(old(spine)@), opt_view(*cover_id), archive@).css,
        bytes_view(*final(cover)) == gathered(items_view(m@), spine_view(old(spine)@), opt_view(*cover_id), archive@).cover,
        strings_view(final(skipped)@) == gathered(items_view(m@), spine_view(old(spine)@), opt_view(*cover_id), archive@).skipped,
{
    let ghost start = spine_view(spine@);
    let ghost items = items_view(m@);
    let ghost cid = opt_view(*cover_id);
    let mut i: usize = 0;
    assert(items.subrange(0, 0) =~= seq![]);
    assert(strings_view(css@) =~= seq![]);
    assert(strings_view(skipped@) =~= seq![]);
    while i < m.len()
        invariant
            i <= m@.len(),
            items == items_view(m@),
            cid == opt_view(*cover_id),
            spine_view(spine@) == gathered(items.subrange(0, i as int), start, cid, archive@).spine,
            strings_view(css@) == gathered(items.subrange(0, i as int), start, cid, archive@).css,
            bytes_view(*cover) == gathered(items.subrange(0, i as int), start, cid, archive@).cover,
            strings_view(skipped@) == gathered(items.subrange(0, i as int), start, cid, archive@).skipped,
        decreases m.len() - i,
    {
        let ghost pre = items.subrange(0, i + 1);
        assert(pre.drop_last() =~= items.subrange(0, i as int));
        assert(pre.last() == m@[i as int].view());
        let ghost g = gathered(items.subrange(0, i as int), start, cid, archive@);
        let href = m[i].href.as_str();
        match read_entry(archive, href) {
            Err(_) => {
                let ghost old_skipped = skipped@;
                skipped.push(m[i].href.clone());
                assert(strings_view(skipped@) =~= strings_view(old_skipped).push(href@));
            },
            Ok(bytes) => {
                if str_ends_with(href, ".css") {
                    let text = decode_lossy(bytes.as_slice());
                    let ghost old_css = css@;
                    css.push(text);
                    assert(strings_view(css@) =~= strings_view(old_css).push(text@));
                } else {
                    match find_chapter(spine, href) {
                        Some(j) => {
                            let text = decode_lossy(bytes.as_slice());
                            let contents = if media_is_markup(spine[j].media_type.as_str()) {
                                wrap_words_with_translate(text.as_str())
                            } else {
                                text
                            };
                            let it = SpineItem {
                                id: spine[j].id.clone(),
                                href: spine[j].href.clone(),
                                media_type: spine[j].media_type.clone(),
                                contents,
                            };
                            let ghost old_spine = spine@;
                            spine.set(j, it);
                            proof {
                                let jj = choose|k: int| first_at(g.spine, m@[i as int].href@, k);
                                lemma_first_at_unique(g.spine, m@[i as int].href@, jj, j as int);
                            }
                            assert(spine_view(spine@) =~= spine_view(old_spine).update(j as int, it.view()));
                        },
                        None => {},
                    }
                }
                let is_cover = match cover_id {
                    Some(c) => str_eq(c.as_str(), m[i].id.as_str()),
                    None => false,
                };
                if is_cover {
                    *cover = Some(bytes);
                }
            },
        }
        i = i + 1;
    }
    assert(items.subrange(0, m@.len() as int) =~= items);
}

/// Loads the book held in `archive`. The language supplied from outside
/// (by detection) wins over the one the package declares. Fails only when
/// the package document cannot be found, read or parsed; an entry that
/// cannot be read is passed over and listed in `skipped`, and a missing or
/// unreadable table of contents leaves it empty, with the reason in
/// `toc_error`.
pub fn parse_epub(archive: &[u8], detected: Option<String>) -> (r: Result<Book, LoadError>)
    ensures
        r is Err <==> loaded_package_of(archive@) is Err,
        r is Err ==> loaded_package_of(archive@) == Err::<crate::package::PkgState, LoadError>(r->Err_0),
        r is Ok ==> book_matches(r->Ok_0, archive@, opt_view(detected)),
{
    let model = load_package(archive)?;
    let mut spine = build_spine(&model.manifest, &model.spine_refs);
    let mut css: Vec<String> = Vec::new();
    let mut cover: Option<Vec<u8>> = None;
    let mut skipped: Vec<String> = Vec::new();
    gather(archive, &model.manifest, &model.cover_id, &mut spine, &mut css, &mut cover, &mut skipped);
    let language = match detected {
        Some(l) => l,
        None => match model.language {
            Some(l) => l,
            None => "unknown".to_string(),
        },
    };
    let (toc, toc_error) = match parse_epub_toc(archive) {
        Ok(t) => (t, None),
        Err(e) => (Vec::new(), Some(e)),
    };
    proof {
        if toc_of(archive@) is Err {
            assert(entries_view(toc@) =~= Seq::<EntryView>::empty());
        }
    }
    Ok(Book { spine, language, css, cover_image: cover, toc, toc_error, skipped })
}

/// A package that names no table of contents gives no table of contents,
/// and the book still loads: with an empty one.
pub proof fn lemma_missing_toc_not_fatal(b: Book, archive: Seq<u8>, detected: Option<Seq<char>>)
    requires
        loaded_package_of(archive) is Ok,
        loaded_package_of(archive)->Ok_0.toc_id is None,
        loaded_package_of(archive)->Ok_0.nav_id is None,
        book_matches(b, archive, detected),
    ensures
        toc_of(archive) == Err::<Seq<EntryView>, LoadError>(LoadError::TocNotFound),
        b.toc@.len() == 0,
{
    let st = loaded_package_of(archive)->Ok_0;
    assert(crate::toc::toc_href_of(st) is None);
    assert(entries_view(b.toc@).len() == 0);
    assert(entries_view(b.toc@).len() == b.toc@.len());
}

/// Resolving the manifest changes only the contents of the chapters.
proof fn lemma_gathered_keeps_chapters(
    items: Seq<ItemView>,
    start: Seq<SpineView>,
    cover_id: Option<Seq<char>>,
    archive: Seq<u8>,
)
    ensures
        gathered(items, start, cover_id, archive).spine.len() == start.len(),
        forall|k: int|
            0 <= k < start.len() ==> (#[trigger] gathered(items, start, cover_id, archive).spine[k]).id
                == start[k].id && gathered(items, start, cover_id, archive).spine[k].href
                == start[k].href,
    decreases items.len(),
{
    if items.len() > 0 {
        lemma_gathered_keeps_chapters(items.drop_last(), start, cover_id, archive);
        let g = gathered(items.drop_last(), start, cover_id, archive);
        let it = items.last();
        if zip_entry_of(archive, it.href) is Ok && !ends_with(it.href, ".css"@) && exists|j: int|
            first_at(g.spine, it.href, j) {
            let j = choose|j: int| first_at(g.spine, it.href, j);
            assert(forall|k: int|
                0 <= k < start.len() ==> (#[trigger] gather_step(g, it, cover_id, archive).spine[k]).id
                    == g.spine[k].id && gather_step(g, it, cover_id, archive).spine[k].href
                    == g.spine[k].href);
        }
    }
}

/// Every spine id names a manifest item: the skeleton has one chapter per
/// id, in spine order.
proof fn lemma_skeleton_follows_refs(m: Seq<ItemView>, refs: Seq<Seq<char>>)
    requires
        forall|i: int| 0 <= i < refs.len() ==> find_id(m, #[trigger] refs[i]) >= 0,
    ensures
        spine_skeleton(m, refs).len() == refs.len(),
        forall|i: int| 0 <= i < refs.len() ==> (#[trigger] spine_skeleton(m, refs)[i]).id == refs[i],
    decreases refs.len(),
{
    if refs.len() > 0 {
        let pre = refs.drop_last();
        assert forall|i: int| 0 <= i < pre.len() implies find_id(m, #[trigger] pre[i]) >= 0 by {
            assert(pre[i] == refs[i]);
        }
        lemma_skeleton_follows_refs(m, pre);
        assert(find_id(m, refs[refs.len() - 1]) >= 0);
    }
}

/// When every id of the spine names a manifest item, the book has one
/// chapter per spine id, in the spine's order.
pub proof fn lemma_spine_follows_refs(b: Book, archive: Seq<u8>, detected: Option<Seq<char>>)
    requires
        loaded_package_of(archive) is Ok,
        book_matches(b, archive, detected),
        forall|i: int|
            0 <= i < loaded_package_of(archive)->Ok_0.spine_refs.len() ==> find_id(
                loaded_package_of(archive)->Ok_0.manifest,
                #[trigger] loaded_package_of(archive)->Ok_0.spine_refs[i],
            ) >= 0,
    ensures
        b.spine@.len() == loaded_package_of(archive)->Ok_0.spine_refs.len(),
        forall|i: int|
            0 <= i < b.spine@.len() ==> (#[trigger] b.spine@[i]).id@
                == loaded_package_of(archive)->Ok_0.spine_refs[i],
{
    let st = loaded_package_of(archive)->Ok_0;
    let start = spine_skeleton(st.manifest, st.spine_refs);
    lemma_skeleton_follows_refs(st.manifest, st.spine_refs);
    lemma_gathered_keeps_chapters(st.manifest, start, st.cover_id, archive);
    assert forall|i: int| 0 <= i < b.spine@.len() implies (#[trigger] b.spine@[i]).id@
        == st.spine_refs[i] by {
        assert(spine_view(b.spine@)[i] == b.spine@[i].view());
    }
}

/// The cover is what the last readable item with the cover's id holds.
proof fn lemma_gathered_cover(
    items: Seq<ItemView>,
    start: Seq<SpineView>,
    cover_id: Seq<char>,
    archive: Seq<u8>,
    j: int,
    bytes: Seq<u8>,
)
    requires
        0 <= j < items.len(),
        items[j].id == cover_id,
        zip_entry_of(archive, items[j].href) == Ok::<Seq<u8>, crate::archive::ArchiveFault>(bytes),
        forall|k: int| 0 <= k < items.len() && k != j ==> (#[trigger] items[k]).id != cover_id,
    ensures
        gathered(items, start, Some(cover_id), archive).cover == Some(bytes),
    decreases items.len(),
{
    let pre = items.drop_last();
    if j < items.len() - 1 {
        assert forall|k: int| 0 <= k < pre.len() && k != j implies (#[trigger] pre[k]).id != cover_id by {
            assert(pre[k] == items[k]);
        }
        lemma_gathered_cover(pre, start, cover_id, archive, j, bytes);
        assert(items.last() == items[items.len() - 1]);
    }
}

/// When the package's cover id names a manifest item whose entry can be
/// read, the book's cover is that entry's raw bytes.
pub proof fn lemma_cover_is_raw_entry(b: Book, archive: Seq<u8>, detected: Option<Seq<char>>, j: int)
    requires
        loaded_package_of(archive) is Ok,
        book_matches(b, archive, detected),
        loaded_package_of(archive)->Ok_0.cover_id is Some,
        0 <= j < loaded_package_of(archive)->Ok_0.manifest.len(),
        loaded_package_of(archive)->Ok_0.manifest[j].id == loaded_package_of(archive)->Ok_0.cover_id->Some_0,
        zip_entry_of(archive, loaded_package_of(archive)->Ok_0.manifest[j].href) is Ok,
    ensures
        bytes_view(b.cover_image) == Some(
            zip_entry_of(archive, loaded_package_of(archive)->Ok_0.manifest[j].href)->Ok_0,
        ),
{
    let st = loaded_package_of(archive)->Ok_0;
    let start = spine_skeleton(st.manifest, st.spine_refs);
    let bytes = zip_entry_of(archive, st.manifest[j].href)->Ok_0;
    let p = package_path_of(archive)->Ok_0;
    lemma_manifest_ids_unique(xml_tokens_of(zip_entry_of(archive, p)->Ok_0), p);
    assert forall|k: int| 0 <= k < st.manifest.len() && k != j implies (#[trigger] st.manifest[k]).id
        != st.cover_id->Some_0 by {
        assert(st.manifest[k].id != st.manifest[j].id);
    }
    lemma_gathered_cover(st.manifest, start, st.cover_id->Some_0, archive, j, bytes);
}

} // verus!
