//! The container descriptor and the package document: manifest, spine,
//! cover reference, language and the table-of-contents references.

use vstd::prelude::*;
use crate::archive::{read_entry, zip_entry_of, ArchiveFault};
use crate::error::LoadError;
use crate::markup::{
    attr_of, attr_value, has_fault, opt_view, tokens_fault, xml_tokens, xml_tokens_of, Attr,
    XmlToken,
};
use crate::paths::{resolve_href, resolve_path};
use crate::text::{split_words, str_eq, words_of};

verus! {

// ---------------------------------------------------------------- container

/// The `full-path` of the first `rootfile` element that has one, reading
/// events in order and stopping at a fault.
pub open spec fn rootfile_of(toks: Seq<XmlToken>) -> Option<Seq<char>>
    decreases toks.len(),
{
    if toks.len() == 0 {
        None
    } else {
        match toks[0] {
            XmlToken::Fault => None,
            XmlToken::Start { name, attrs } => {
                if name@ == "rootfile"@ && attr_of(attrs@, "full-path"@) is Some {
                    attr_of(attrs@, "full-path"@)
                } else {
                    rootfile_of(toks.drop_first())
                }
            },
            _ => rootfile_of(toks.drop_first()),
        }
    }
}

/// Finds the package document's path among the events of the container
/// descriptor.
pub fn find_opf_path(toks: &Vec<XmlToken>) -> (r: Option<String>)
    ensures
        opt_view(r) == rootfile_of(toks@),
{
    let mut i: usize = 0;
    assert(toks@.subrange(0, toks@.len() as int) =~= toks@);
    while i < toks.len()
        invariant
            i <= toks@.len(),
            rootfile_of(toks@) == rootfile_of(toks@.subrange(i as int, toks@.len() as int)),
        decreases toks.len() - i,
    {
        let ghost rest = toks@.subrange(i as int, toks@.len() as int);
        assert(rest.drop_first() =~= toks@.subrange(i + 1, toks@.len() as int));
        assert(rest[0] == toks@[i as int]);
        match &toks[i] {
            XmlToken::Fault => {
                return None;
            },
            XmlToken::Start { name, attrs } => {
                if str_eq(name.as_str(), "rootfile") {
                    let p = attr_value(attrs, "full-path");
                    if p.is_some() {
                        return p;
                    }
                }
            },
            _ => {},
        }
        i = i + 1;
    }
    None
}

/// The entry that holds the container descriptor.
pub open spec fn container_name() -> Seq<char> {
    "META-INF/container.xml"@
}

/// The package document's path that the container descriptor of `archive`
/// names.
pub open spec fn package_path_of(archive: Seq<u8>) -> Result<Seq<char>, LoadError> {
    match zip_entry_of(archive, container_name()) {
        Err(ArchiveFault::Missing) => Err(LoadError::MissingContainerEntry),
        Err(_) => Err(LoadError::ArchiveError),
        Ok(doc) => match rootfile_of(xml_tokens_of(doc)) {
            Some(p) => Ok(p),
            None => Err(LoadError::MissingRootfile),
        },
    }
}

/// Reads the container descriptor of the archive and returns the path of the
/// package document that it names.
pub fn resolve_package_path(archive: &[u8]) -> (r: Result<String, LoadError>)
    ensures
        match r {
            Ok(p) => package_path_of(archive@) == Ok::<Seq<char>, LoadError>(p@),
            Err(e) => package_path_of(archive@) == Err::<Seq<char>, LoadError>(e),
        },
{
    let doc = match read_entry(archive, "META-INF/container.xml") {
        Ok(d) => d,
        Err(ArchiveFault::Missing) => {
            return Err(LoadError::MissingContainerEntry);
        },
        Err(_) => {
            return Err(LoadError::ArchiveError);
        },
    };
    let toks = xml_tokens(doc.as_slice());
    match find_opf_path(&toks) {
        Some(p) => Ok(p),
        None => Err(LoadError::MissingRootfile),
    }
}

// ---------------------------------------------------------------- package

/// A resource of the package.
pub struct ManifestItem {
    pub id: String,
    /// The entry name, relative to the archive root.
    pub href: String,
    pub media_type: String,
}

/// What the package document declares.
pub struct PackageModel {
    /// The resources, one per id, in order of first appearance.
    pub manifest: Vec<ManifestItem>,
    /// The reading order, as ids, in document order.
    pub spine_refs: Vec<String>,
    pub cover_id: Option<String>,
    pub language: Option<String>,
    /// The id that the spine's `toc` attribute names.
    pub toc_id: Option<String>,
    /// The id of the first resource flagged as navigation document.
    pub nav_id: Option<String>,
}

/// The section of the package document being read.
#[derive(Debug, Clone, Copy, PartialEq, Eq, Structural)]
pub enum Section {
    Outside,
    Manifest,
    Spine,
}

/// A manifest item as values.
pub struct ItemView {
    pub id: Seq<char>,
    pub href: Seq<char>,
    pub media_type: Seq<char>,
}

/// The package parser's state as values.
pub struct PkgState {
    pub manifest: Seq<ItemView>,
    pub spine_refs: Seq<Seq<char>>,
    pub cover_id: Option<Seq<char>>,
    pub language: Option<Seq<char>>,
    pub toc_id: Option<Seq<char>>,
    pub nav_id: Option<Seq<char>>,
    pub section: Section,
    pub in_language: bool,
}

impl ManifestItem {
    pub open spec fn view(&self) -> ItemView {
        ItemView { id: self.id@, href: self.href@, media_type: self.media_type@ }
    }
}

/// The views of manifest items.
pub open spec fn items_view(m: Seq<ManifestItem>) -> Seq<ItemView> {
    m.map_values(|x: ManifestItem| x.view())
}

/// The views of strings.
pub open spec fn strings_view(v: Seq<String>) -> Seq<Seq<char>> {
    v.map_values(|x: String| x@)
}

impl PackageModel {
    /// The model with the parser's section and language flag.
    pub open spec fn state(&self, section: Section, in_language: bool) -> PkgState {
        PkgState {
            manifest: items_view(self.manifest@),
            spine_refs: strings_view(self.spine_refs@),
            cover_id: opt_view(self.cover_id),
            language: opt_view(self.language),
            toc_id: opt_view(self.toc_id),
            nav_id: opt_view(self.nav_id),
            section,
            in_language,
        }
    }
}

/// The last index of the item with id `id`, or -1.
pub open spec fn find_id(m: Seq<ItemView>, id: Seq<char>) -> int
    decreases m.len(),
{
    if m.len() == 0 {
        -1
    } else if m.last().id == id {
        m.len() - 1
    } else {
        find_id(m.drop_last(), id)
    }
}

/// Records an item: it replaces the item of the same id, or comes last.
pub open spec fn insert_item(m: Seq<ItemView>, it: ItemView) -> Seq<ItemView> {
    if find_id(m, it.id) >= 0 {
        m.update(find_id(m, it.id), it)
    } else {
        m.push(it)
    }
}

/// Whether the white-space separated list `p` holds the word `nav`.
pub open spec fn lists_nav(p: Seq<char>) -> bool {
    exists|i: int| 0 <= i < words_of(p).len() && #[trigger] words_of(p)[i] == seq!['n', 'a', 'v']
}

/// Whether a `properties` value flags the navigation document.
pub open spec fn flags_nav(props: Option<Seq<char>>) -> bool {
    match props {
        Some(p) => lists_nav(p),
        None => false,
    }
}

/// The state after a `Start` event of a manifest `item`.
pub open spec fn item_step(st: PkgState, attrs: Seq<Attr>, base: Seq<char>) -> PkgState {
    match (attr_of(attrs, "id"@), attr_of(attrs, "href"@), attr_of(attrs, "media-type"@)) {
        (Some(id), Some(href), Some(mt)) => PkgState {
            manifest: insert_item(
                st.manifest,
                ItemView { id, href: resolve_href(base, href), media_type: mt },
            ),
            nav_id: if st.nav_id is None && flags_nav(attr_of(attrs, "properties"@)) {
                Some(id)
            } else {
                st.nav_id
            },
            ..st
        },
        _ => st,
    }
}

/// The state after one event of the package document at `base`.
pub open spec fn pkg_step(st: PkgState, t: XmlToken, base: Seq<char>) -> PkgState {
    match t {
        XmlToken::Start { name, attrs } => {
            if name@ == "manifest"@ {
                PkgState { section: Section::Manifest, ..st }
            } else if name@ == "spine"@ {
                PkgState {
                    section: Section::Spine,
                    toc_id: if attr_of(attrs@, "toc"@) is Some {
                        attr_of(attrs@, "toc"@)
                    } else {
                        st.toc_id
                    },
                    ..st
                }
            } else if name@ == "meta"@ {
                if attr_of(attrs@, "name"@) == Some("cover"@) && attr_of(attrs@, "content"@) is Some {
                    PkgState { cover_id: attr_of(attrs@, "content"@), ..st }
                } else {
                    st
                }
            } else if name@ == "item"@ && st.section == Section::Manifest {
                item_step(st, attrs@, base)
            } else if name@ == "itemref"@ && st.section == Section::Spine {
                match attr_of(attrs@, "idref"@) {
                    Some(r) => PkgState { spine_refs: st.spine_refs.push(r), ..st },
                    None => st,
                }
            } else if name@ == "language"@ {
                PkgState { in_language: true, ..st }
            } else {
                st
            }
        },
        XmlToken::End { name } => {
            if name@ == "manifest"@ || name@ == "spine"@ {
                PkgState { section: Section::Outside, ..st }
            } else if name@ == "language"@ {
                PkgState { in_language: false, ..st }
            } else {
                st
            }
        },
        XmlToken::Text { text } => {
            if st.in_language && st.language is None {
                PkgState { language: Some(text@), ..st }
            } else {
                st
            }
        },
        _ => st,
    }
}

/// The state before any event.
pub open spec fn pkg_start() -> PkgState {
    PkgState {
        manifest: seq![],
        spine_refs: seq![],
        cover_id: None,
        language: None,
        toc_id: None,
        nav_id: None,
        section: Section::Outside,
        in_language: false,
    }
}

/// The state after the events `toks` of the package document at `base`.
pub open spec fn package_of(toks: Seq<XmlToken>, base: Seq<char>) -> PkgState
    decreases toks.len(),
{
    if toks.len() == 0 {
        pkg_start()
    } else {
        pkg_step(package_of(toks.drop_last(), base), toks.last(), base)
    }
}

/// Whether the model's declarations are those of the parser state `st`.
pub open spec fn model_matches(m: PackageModel, st: PkgState) -> bool {
    &&& items_view(m.manifest@) == st.manifest
    &&& strings_view(m.spine_refs@) == st.spine_refs
    &&& opt_view(m.cover_id) == st.cover_id
    &&& opt_view(m.language) == st.language
    &&& opt_view(m.toc_id) == st.toc_id
    &&& opt_view(m.nav_id) == st.nav_id
}

/// The last position of the item with id `id`.
pub(crate) fn find_item(m: &Vec<ManifestItem>, id: &str) -> (r: Option<usize>)
    ensures
        match r {
            Some(j) => find_id(items_view(m@), id@) == j as int && j < m@.len(),
            None => find_id(items_view(m@), id@) == -1,
        },
{
    let mut i: usize = m.len();
    assert(items_view(m@).subrange(0, m@.len() as int) =~= items_view(m@));
    while i > 0
        invariant
            i <= m@.len(),
            find_id(items_view(m@), id@) == find_id(items_view(m@).subrange(0, i as int), id@),
        decreases i,
    {
        let ghost pre = items_view(m@).subrange(0, i as int);
        assert(pre.drop_last() =~= items_view(m@).subrange(0, i - 1));
        if str_eq(m[i - 1].id.as_str(), id) {
            return Some(i - 1);
        }
        i = i - 1;
    }
    None
}

/// Records an item, replacing the item of the same id.
fn insert_manifest(m: &mut Vec<ManifestItem>, it: ManifestItem)
    ensures
        items_view(final(m)@) == insert_item(items_view(old(m)@), it.view()),
{
    match find_item(m, it.id.as_str()) {
        Some(j) => {
            m.set(j, it);
            assert(items_view(m@) =~= insert_item(items_view(old(m)@), it.view()));
        },
        None => {
            m.push(it);
            assert(items_view(m@) =~= insert_item(items_view(old(m)@), it.view()));
        },
    }
}

/// Whether a `properties` value flags the navigation document.
fn is_nav(props: &Option<String>) -> (r: bool)
    ensures
        r == flags_nav(opt_view(*props)),
{
    match props {
        None => false,
        Some(p) => {
            proof {
                reveal_strlit("nav");
                assert("nav"@ =~= seq!['n', 'a', 'v']);
            }
            let words = split_words(p.as_str());
            let mut i: usize = 0;
            while i < words.len()
                invariant
                    i <= words@.len(),
                    opt_view(*props) == Some(p@),
                    words@.len() == words_of(p@).len(),
                    forall|k: int| 0 <= k < words@.len() ==> #[trigger] words@[k]@ == words_of(p@)[k],
                    forall|k: int| 0 <= k < i ==> words_of(p@)[k] != seq!['n', 'a', 'v'],
                    "nav"@ == seq!['n', 'a', 'v'],
                decreases words.len() - i,
            {
                if str_eq(words[i].as_str(), "nav") {
                    assert(words_of(p@)[i as int] == seq!['n', 'a', 'v']);
                    return true;
                }
                i = i + 1;
            }
            false
        },
    }
}

/// Applies a manifest `item` element.
fn apply_item(model: &mut PackageModel, attrs: &Vec<Attr>, base: &str, section: Section, in_language: bool)
    ensures
        final(model).state(section, in_language) == item_step(
            old(model).state(section, in_language),
            attrs@,
            base@,
        ),
{
    let id = attr_value(attrs, "id");
    let href = attr_value(attrs, "href");
    let mt = attr_value(attrs, "media-type");
    match (id, href, mt) {
        (Some(id), Some(href), Some(mt)) => {
            let props = attr_value(attrs, "properties");
            if model.nav_id.is_none() && is_nav(&props) {
                model.nav_id = Some(id.clone());
            }
            let full = resolve_path(base, href.as_str());
            insert_manifest(&mut model.manifest, ManifestItem { id, href: full, media_type: mt });
        },
        _ => {},
    }
}

/// Parses the events of the package document at `base` into its
/// declarations.
pub fn package_from_tokens(toks: &Vec<XmlToken>, base: &str) -> (r: PackageModel)
    ensures
        model_matches(r, package_of(toks@, base@)),
        ids_unique(items_view(r.manifest@)),
{
    proof {
        lemma_manifest_ids_unique(toks@, base@);
    }
    let mut model = PackageModel {
        manifest: Vec::new(),
        spine_refs: Vec::new(),
        cover_id: None,
        language: None,
        toc_id: None,
        nav_id: None,
    };
    let mut section = Section::Outside;
    let mut in_language = false;
    let mut i: usize = 0;
    assert(items_view(model.manifest@) =~= seq![]);
    assert(strings_view(model.spine_refs@) =~= seq![]);
    assert(model.state(section, in_language) == pkg_start());
    assert(toks@.subrange(0, 0) =~= seq![]);
    while i < toks.len()
        invariant
            i <= toks@.len(),
            model.state(section, in_language) == package_of(toks@.subrange(0, i as int), base@),
        decreases toks.len() - i,
    {
        let ghost pre = toks@.subrange(0, i + 1);
        assert(pre.drop_last() =~= toks@.subrange(0, i as int));
        let ghost before = model.state(section, in_language);
        match &toks[i] {
            XmlToken::Start { name, attrs } => {
                let n = name.as_str();
                if str_eq(n, "manifest") {
                    section = Section::Manifest;
                } else if str_eq(n, "spine") {
                    section = Section::Spine;
                    let t = attr_value(attrs, "toc");
                    if t.is_some() {
                        model.toc_id = t;
                    }
                } else if str_eq(n, "meta") {
                    let nm = attr_value(attrs, "name");
                    let content = attr_value(attrs, "content");
                    let is_cover = match &nm {
                        Some(v) => str_eq(v.as_str(), "cover"),
                        None => false,
                    };
                    if is_cover && content.is_some() {
                        model.cover_id = content;
                    }
                } else if str_eq(n, "item") && section == Section::Manifest {
                    apply_item(&mut model, attrs, base, section, in_language);
                } else if str_eq(n, "itemref") && section == Section::Spine {
                    match attr_value(attrs, "idref") {
                        Some(r) => {
                            model.spine_refs.push(r);
                            assert(strings_view(model.spine_refs@) =~= before.spine_refs.push(r@));
                        },
                        None => {},
                    }
                } else if str_eq(n, "language") {
                    in_language = true;
                }
            },
            XmlToken::End { name } => {
                let n = name.as_str();
                if str_eq(n, "manifest") || str_eq(n, "spine") {
                    section = Section::Outside;
                } else if str_eq(n, "language") {
                    in_language = false;
                }
            },
            XmlToken::Text { text } => {
                if in_language && model.language.is_none() {
                    model.language = Some(text.clone());
                }
            },
            _ => {},
        }
        assert(model.state(section, in_language) =~= pkg_step(before, toks@[i as int], base@));
        i = i + 1;
    }
    assert(toks@.subrange(0, toks@.len() as int) =~= toks@);
    model
}

/// Parses the package document `doc`, found in the archive at `base`.
/// Fails exactly when the document is not well formed.
pub fn parse_package(doc: &[u8], base: &str) -> (r: Result<PackageModel, LoadError>)
    ensures
        r is Err <==> has_fault(xml_tokens_of(doc@)),
        r is Err ==> r->Err_0 == LoadError::MalformedPackage,
        r is Ok ==> model_matches(r->Ok_0, package_of(xml_tokens_of(doc@), base@)),
{
    let toks = xml_tokens(doc);
    if tokens_fault(&toks) {
        return Err(LoadError::MalformedPackage);
    }
    Ok(package_from_tokens(&toks, base))
}

/// The declarations of the package document of `archive`, or why they
/// cannot be had.
pub open spec fn loaded_package_of(archive: Seq<u8>) -> Result<PkgState, LoadError> {
    match package_path_of(archive) {
        Err(e) => Err(e),
        Ok(p) => match zip_entry_of(archive, p) {
            Err(_) => Err(LoadError::ArchiveError),
            Ok(doc) => {
                if has_fault(xml_tokens_of(doc)) {
                    Err(LoadError::MalformedPackage)
                } else {
                    Ok(package_of(xml_tokens_of(doc), p))
                }
            },
        },
    }
}

/// Finds, reads and parses the package document of `archive`.
pub fn load_package(archive: &[u8]) -> (r: Result<PackageModel, LoadError>)
    ensures
        match r {
            Ok(m) => loaded_package_of(archive@) is Ok && model_matches(
                m,
                loaded_package_of(archive@)->Ok_0,
            ),
            Err(e) => loaded_package_of(archive@) == Err::<PkgState, LoadError>(e),
        },
{
    let path = resolve_package_path(archive)?;
    let doc = match read_entry(archive, path.as_str()) {
        Ok(d) => d,
        Err(_) => {
            return Err(LoadError::ArchiveError);
        },
    };
    parse_package(doc.as_slice(), path.as_str())
}

/// The section that the events `toks` leave the reader in: inside the
/// manifest from its opening tag to its closing tag, and likewise the spine.
pub open spec fn section_after(toks: Seq<XmlToken>) -> Section
    decreases toks.len(),
{
    if toks.len() == 0 {
        Section::Outside
    } else {
        match toks.last() {
            XmlToken::Start { name, .. } => {
                if name@ == "manifest"@ {
                    Section::Manifest
                } else if name@ == "spine"@ {
                    Section::Spine
                } else {
                    section_after(toks.drop_last())
                }
            },
            XmlToken::End { name } => {
                if name@ == "manifest"@ || name@ == "spine"@ {
                    Section::Outside
                } else {
                    section_after(toks.drop_last())
                }
            },
            _ => section_after(toks.drop_last()),
        }
    }
}

/// The ids of the `item` elements inside the manifest that carry `id`,
/// `href` and `media-type`, in document order.
pub open spec fn complete_item_ids(toks: Seq<XmlToken>) -> Seq<Seq<char>>
    decreases toks.len(),
{
    if toks.len() == 0 {
        seq![]
    } else {
        let rest = complete_item_ids(toks.drop_last());
        match toks.last() {
            XmlToken::Start { name, attrs } => {
                if name@ == "item"@ && section_after(toks.drop_last()) == Section::Manifest
                    && attr_of(attrs@, "id"@) is Some && attr_of(attrs@, "href"@) is Some
                    && attr_of(attrs@, "media-type"@) is Some {
                    rest.push(attr_of(attrs@, "id"@)->Some_0)
                } else {
                    rest
                }
            },
            _ => rest,
        }
    }
}

/// The ids that the `itemref` elements inside the spine name, in document
/// order.
pub open spec fn itemref_ids(toks: Seq<XmlToken>) -> Seq<Seq<char>>
    decreases toks.len(),
{
    if toks.len() == 0 {
        seq![]
    } else {
        let rest = itemref_ids(toks.drop_last());
        match toks.last() {
            XmlToken::Start { name, attrs } => {
                if name@ == "itemref"@ && section_after(toks.drop_last()) == Section::Spine
                    && attr_of(attrs@, "idref"@) is Some {
                    rest.push(attr_of(attrs@, "idref"@)->Some_0)
                } else {
                    rest
                }
            },
            _ => rest,
        }
    }
}

/// A found index holds the id looked for; no index is found only when no
/// item has that id.
pub proof fn lemma_find_id(m: Seq<ItemView>, id: Seq<char>)
    ensures
        -1 <= find_id(m, id) < m.len(),
        find_id(m, id) >= 0 ==> m[find_id(m, id)].id == id,
        find_id(m, id) == -1 ==> forall|k: int| 0 <= k < m.len() ==> (#[trigger] m[k]).id != id,
    decreases m.len(),
{
    if m.len() > 0 {
        lemma_find_id(m.drop_last(), id);
        if find_id(m, id) == -1 {
            assert forall|k: int| 0 <= k < m.len() implies (#[trigger] m[k]).id != id by {
                if k < m.len() - 1 {
                    assert(m[k] == m.drop_last()[k]);
                }
            }
        }
    }
}

/// Whether no two items share an id.
pub open spec fn ids_unique(m: Seq<ItemView>) -> bool {
    forall|a: int, b: int| 0 <= a < m.len() && 0 <= b < m.len() && a != b ==> (#[trigger] m[a]).id != (#[trigger] m[b]).id
}

/// Recording an item keeps ids unique.
proof fn lemma_insert_keeps_unique(m: Seq<ItemView>, it: ItemView)
    requires
        ids_unique(m),
    ensures
        ids_unique(insert_item(m, it)),
{
    lemma_find_id(m, it.id);
}

/// The manifest the package parser builds never holds two items with one id.
pub proof fn lemma_manifest_ids_unique(toks: Seq<XmlToken>, base: Seq<char>)
    ensures
        ids_unique(package_of(toks, base).manifest),
    decreases toks.len(),
{
    if toks.len() > 0 {
        lemma_manifest_ids_unique(toks.drop_last(), base);
        let st = package_of(toks.drop_last(), base);
        if let XmlToken::Start { name, attrs } = toks.last() {
            if let (Some(id), Some(href), Some(mt)) = (
                attr_of(attrs@, "id"@),
                attr_of(attrs@, "href"@),
                attr_of(attrs@, "media-type"@),
            ) {
                lemma_insert_keeps_unique(
                    st.manifest,
                    ItemView { id, href: resolve_href(base, href), media_type: mt },
                );
            }
        }
    }
}

/// The element names the package parser tells apart differ.
proof fn lemma_names_differ()
    ensures
        "item"@ != "manifest"@,
        "item"@ != "spine"@,
        "item"@ != "meta"@,
        "item"@ != "language"@,
        "itemref"@ != "manifest"@,
        "itemref"@ != "spine"@,
        "itemref"@ != "meta"@,
        "itemref"@ != "item"@,
        "itemref"@ != "language"@,
        "spine"@ != "manifest"@,
{
    reveal_strlit("item");
    reveal_strlit("itemref");
    reveal_strlit("manifest");
    reveal_strlit("spine");
    reveal_strlit("meta");
    reveal_strlit("language");
    assert("item"@.len() != "manifest"@.len());
    assert("item"@[0] != "spine"@[0]);
    assert("item"@[0] != "meta"@[0]);
    assert("item"@.len() != "language"@.len());
    assert("itemref"@.len() != "manifest"@.len());
    assert("itemref"@.len() != "spine"@.len());
    assert("itemref"@.len() != "meta"@.len());
    assert("itemref"@.len() != "item"@.len());
    assert("itemref"@.len() != "language"@.len());
    assert("spine"@.len() != "manifest"@.len());
}

/// The parser's section is the section the events leave the reader in.
proof fn lemma_section(toks: Seq<XmlToken>, base: Seq<char>)
    ensures
        package_of(toks, base).section == section_after(toks),
    decreases toks.len(),
{
    if toks.len() > 0 {
        lemma_section(toks.drop_last(), base);
    }
}

/// The parser holds one manifest item per complete `item` element inside
/// the manifest, in document order, when their ids are distinct.
proof fn lemma_manifest_items(toks: Seq<XmlToken>, base: Seq<char>)
    requires
        complete_item_ids(toks).no_duplicates(),
    ensures
        package_of(toks, base).manifest.len() == complete_item_ids(toks).len(),
        forall|k: int|
            0 <= k < complete_item_ids(toks).len() ==> (#[trigger] package_of(toks, base).manifest[k]).id
                == complete_item_ids(toks)[k],
    decreases toks.len(),
{
    lemma_names_differ();
    if toks.len() > 0 {
        let pre = toks.drop_last();
        let ids = complete_item_ids(toks);
        let pids = complete_item_ids(pre);
        assert(pids.no_duplicates()) by {
            if ids.len() > pids.len() {
                assert forall|a: int, b: int|
                    0 <= a < pids.len() && 0 <= b < pids.len() && a != b implies pids[a] != pids[b] by {
                    assert(pids[a] == ids[a] && pids[b] == ids[b]);
                }
            }
        }
        lemma_manifest_items(pre, base);
        lemma_section(pre, base);
        let st = package_of(pre, base);
        if let XmlToken::Start { name, attrs } = toks.last() {
            if name@ == "item"@ && st.section == Section::Manifest && attr_of(attrs@, "id"@) is Some
                && attr_of(attrs@, "href"@) is Some && attr_of(attrs@, "media-type"@) is Some {
                let id = attr_of(attrs@, "id"@)->Some_0;
                assert(ids == pids.push(id));
                assert forall|k: int| 0 <= k < st.manifest.len() implies st.manifest[k].id != id by {
                    assert(ids[k] == pids[k]);
                    assert(ids[pids.len() as int] == id);
                }
                lemma_find_id(st.manifest, id);
            }
        }
    }
}

/// For any package document: the manifest holds exactly one item for each
/// `item` element inside the manifest that carries `id`, `href` and
/// `media-type` (ids being distinct); items missing any of them are dropped.
pub proof fn lemma_manifest_keeps_complete_items(toks: Seq<XmlToken>, base: Seq<char>)
    requires
        complete_item_ids(toks).no_duplicates(),
    ensures
        package_of(toks, base).manifest.len() == complete_item_ids(toks).len(),
        forall|k: int|
            0 <= k < complete_item_ids(toks).len() ==> (#[trigger] package_of(toks, base).manifest[k]).id
                == complete_item_ids(toks)[k],
{
    lemma_manifest_items(toks, base);
}

/// For any package document: the spine's ids are those that the `itemref`
/// elements inside the spine name, in document order.
pub proof fn lemma_spine_refs_in_order(toks: Seq<XmlToken>, base: Seq<char>)
    ensures
        package_of(toks, base).spine_refs == itemref_ids(toks),
    decreases toks.len(),
{
    lemma_names_differ();
    if toks.len() > 0 {
        lemma_spine_refs_in_order(toks.drop_last(), base);
        lemma_section(toks.drop_last(), base);
    }
}

} // verus!
