//! The table of contents, in its legacy (NCX) and its modern (navigation
//! document) format.

use vstd::prelude::*;
use vstd::string::StringExecFns;
use crate::archive::{read_entry, zip_entry_of};
use crate::error::LoadError;
use crate::markup::{attr_of, attr_value, has_fault, tokens_fault, xml_tokens, xml_tokens_of, XmlToken};
use crate::package::{
    find_id, find_item, items_view, load_package, loaded_package_of, ItemView,
    ManifestItem, PkgState,
};
use crate::text::{ends_with, str_eq, str_ends_with, trim_text, trimmed};

verus! {

/// One entry of the table of contents.
pub struct TocEntry {
    pub label: String,
    pub target: String,
}

/// An entry as values: label and target.
pub type EntryView = (Seq<char>, Seq<char>);

impl TocEntry {
    pub open spec fn view(&self) -> EntryView {
        (self.label@, self.target@)
    }
}

/// The views of entries.
pub open spec fn entries_view(v: Seq<TocEntry>) -> Seq<EntryView> {
    v.map_values(|e: TocEntry| e.view())
}

/// The entries so far once a navigation point (or anchor) is settled with
/// this label and target: one more when both are non-empty.
pub open spec fn close_point(entries: Seq<EntryView>, label: Seq<char>, target: Seq<char>) -> Seq<
    EntryView,
> {
    if label.len() > 0 && target.len() > 0 {
        entries.push((trimmed(label), target))
    } else {
        entries
    }
}

/// A navigation point being read: its label and target so far, and whether
/// its entry has been settled.
pub struct Frame {
    pub label: Seq<char>,
    pub target: Seq<char>,
    pub done: bool,
}

/// The legacy reader's state: entries so far, the open navigation points
/// (innermost last), and whether a `text` element was just opened.
pub struct NcxState {
    pub entries: Seq<EntryView>,
    pub frames: Seq<Frame>,
    pub await_text: bool,
}

/// Settles the innermost open point: its entry is added when its label and
/// target are both non-empty. A point is settled once, when a nested point
/// opens in it or when it closes, so entries come in document order.
pub open spec fn flush_top(st: NcxState) -> NcxState {
    if st.frames.len() == 0 || st.frames.last().done {
        st
    } else {
        let f = st.frames.last();
        NcxState {
            entries: close_point(st.entries, f.label, f.target),
            frames: st.frames.update(st.frames.len() - 1, Frame { done: true, ..f }),
            ..st
        }
    }
}

/// The legacy reader's state after one event. The event that follows the
/// opening of a `text` element is its content, or is passed over.
pub open spec fn ncx_step(st: NcxState, t: XmlToken) -> NcxState {
    if st.await_text {
        match t {
            XmlToken::Text { text } => if st.frames.len() > 0 {
                NcxState {
                    frames: st.frames.update(
                        st.frames.len() - 1,
                        Frame { label: text@, ..st.frames.last() },
                    ),
                    await_text: false,
                    ..st
                }
            } else {
                NcxState { await_text: false, ..st }
            },
            _ => NcxState { await_text: false, ..st },
        }
    } else {
        match t {
            XmlToken::Start { name, attrs } => {
                if name@ == "navPoint"@ {
                    let s = flush_top(st);
                    NcxState {
                        frames: s.frames.push(Frame { label: seq![], target: seq![], done: false }),
                        ..s
                    }
                } else if name@ == "text"@ {
                    NcxState { await_text: true, ..st }
                } else if name@ == "content"@ && attr_of(attrs@, "src"@) is Some
                    && st.frames.len() > 0 {
                    NcxState {
                        frames: st.frames.update(
                            st.frames.len() - 1,
                            Frame { target: attr_of(attrs@, "src"@)->Some_0, ..st.frames.last() },
                        ),
                        ..st
                    }
                } else {
                    st
                }
            },
            XmlToken::End { name } => {
                if name@ == "navPoint"@ && st.frames.len() > 0 {
                    let s = flush_top(st);
                    NcxState { frames: s.frames.drop_last(), ..s }
                } else {
                    st
                }
            },
            _ => st,
        }
    }
}

/// The legacy reader's state before any event.
pub open spec fn ncx_start() -> NcxState {
    NcxState { entries: seq![], frames: seq![], await_text: false }
}

/// The legacy reader's state after the events `toks`, from state `st`.
pub open spec fn ncx_run(st: NcxState, toks: Seq<XmlToken>) -> NcxState
    decreases toks.len(),
{
    if toks.len() == 0 {
        st
    } else {
        ncx_step(ncx_run(st, toks.drop_last()), toks.last())
    }
}

/// The legacy reader's state after the events `toks`.
pub open spec fn ncx_state(toks: Seq<XmlToken>) -> NcxState {
    ncx_run(ncx_start(), toks)
}

/// The modern reader's state: entries so far, and the label and target of
/// the current anchor.
pub struct NavState {
    pub entries: Seq<EntryView>,
    pub label: Seq<char>,
    pub target: Seq<char>,
}

/// The modern reader's state after one event.
pub open spec fn nav_step(st: NavState, t: XmlToken) -> NavState {
    match t {
        XmlToken::Start { name, attrs } => {
            if name@ == "a"@ {
                NavState {
                    label: seq![],
                    target: match attr_of(attrs@, "href"@) {
                        Some(h) => h,
                        None => seq![],
                    },
                    ..st
                }
            } else {
                st
            }
        },
        XmlToken::Text { text } => NavState { label: st.label + text@, ..st },
        XmlToken::End { name } => {
            if name@ == "a"@ {
                NavState {
                    entries: close_point(st.entries, st.label, st.target),
                    label: seq![],
                    target: seq![],
                }
            } else {
                st
            }
        },
        _ => st,
    }
}

/// The modern reader's state after the events `toks`.
pub open spec fn nav_state(toks: Seq<XmlToken>) -> NavState
    decreases toks.len(),
{
    if toks.len() == 0 {
        NavState { entries: seq![], label: seq![], target: seq![] }
    } else {
        nav_step(nav_state(toks.drop_last()), toks.last())
    }
}

/// Adds the entry of a closing navigation point or anchor.
fn close_entry(entries: &mut Vec<TocEntry>, label: &String, target: &String)
    ensures
        entries_view(final(entries)@) == close_point(entries_view(old(entries)@), label@, target@),
{
    if !label.as_str().is_empty() && !target.as_str().is_empty() {
        let e = TocEntry { label: trim_text(label.as_str()), target: target.clone() };
        entries.push(e);
        assert(entries_view(entries@) =~= entries_view(old(entries)@).push(e.view()));
    }
}

/// A navigation point being read.
struct NcxFrame {
    label: String,
    target: String,
    done: bool,
}

impl NcxFrame {
    spec fn view(&self) -> Frame {
        Frame { label: self.label@, target: self.target@, done: self.done }
    }
}

/// The views of frames.
spec fn frames_view(v: Seq<NcxFrame>) -> Seq<Frame> {
    v.map_values(|f: NcxFrame| f.view())
}

/// Settles the innermost open point.
fn flush_frames(entries: &mut Vec<TocEntry>, frames: &mut Vec<NcxFrame>, await_text: bool)
    ensures
        (NcxState {
            entries: entries_view(final(entries)@),
            frames: frames_view(final(frames)@),
            await_text,
        }) == flush_top(
            NcxState { entries: entries_view(old(entries)@), frames: frames_view(old(frames)@), await_text },
        ),
{
    if frames.len() == 0 {
        return;
    }
    let ghost before = frames_view(frames@);
    let top = frames.pop();
    match top {
        Some(f) => {
            assert(f.view() == before.last());
            if f.done {
                frames.push(f);
                assert(frames_view(frames@) =~= before);
            } else {
                close_entry(entries, &f.label, &f.target);
                let g = NcxFrame { label: f.label, target: f.target, done: true };
                frames.push(g);
                assert(frames_view(frames@) =~= before.update(before.len() - 1, g.view()));
            }
        },
        None => {},
    }
}

/// Replaces the innermost open point's label, or target.
fn set_top(frames: &mut Vec<NcxFrame>, value: String, is_label: bool)
    requires
        old(frames)@.len() > 0,
    ensures
        frames_view(final(frames)@) == frames_view(old(frames)@).update(
            old(frames)@.len() - 1,
            if is_label {
                Frame { label: value@, ..frames_view(old(frames)@).last() }
            } else {
                Frame { target: value@, ..frames_view(old(frames)@).last() }
            },
        ),
{
    let ghost before = frames_view(frames@);
    let top = frames.pop();
    match top {
        Some(f) => {
            assert(f.view() == before.last());
            let g = if is_label {
                NcxFrame { label: value, target: f.target, done: f.done }
            } else {
                NcxFrame { label: f.label, target: value, done: f.done }
            };
            frames.push(g);
            assert(frames_view(frames@) =~= before.update(before.len() - 1, g.view()));
        },
        None => {},
    }
}

/// Reads the entries of a legacy table of contents from its events.
pub fn ncx_entries(toks: &Vec<XmlToken>) -> (r: Vec<TocEntry>)
    ensures
        entries_view(r@) == ncx_state(toks@).entries,
{
    let mut entries: Vec<TocEntry> = Vec::new();
    let mut frames: Vec<NcxFrame> = Vec::new();
    let mut await_text = false;
    let mut i: usize = 0;
    assert(entries_view(entries@) =~= seq![]);
    assert(frames_view(frames@) =~= seq![]);
    assert(toks@.subrange(0, 0) =~= seq![]);
    while i < toks.len()
        invariant
            i <= toks@.len(),
            (NcxState { entries: entries_view(entries@), frames: frames_view(frames@), await_text })
                == ncx_state(toks@.subrange(0, i as int)),
        decreases toks.len() - i,
    {
        let ghost pre = toks@.subrange(0, i + 1);
        assert(pre.drop_last() =~= toks@.subrange(0, i as int));
        if await_text {
            await_text = false;
            if let XmlToken::Text { text } = &toks[i] {
                if frames.len() > 0 {
                    set_top(&mut frames, text.clone(), true);
                }
            }
        } else {
            match &toks[i] {
                XmlToken::Start { name, attrs } => {
                    let n = name.as_str();
                    if str_eq(n, "navPoint") {
                        flush_frames(&mut entries, &mut frames, await_text);
                        let ghost flushed = frames_view(frames@);
                        let f = NcxFrame { label: String::new(), target: String::new(), done: false };
                        frames.push(f);
                        assert(frames_view(frames@) =~= flushed.push(f.view()));
                    } else if str_eq(n, "text") {
                        await_text = true;
                    } else if str_eq(n, "content") {
                        match attr_value(attrs, "src") {
                            Some(src) => {
                                if frames.len() > 0 {
                                    set_top(&mut frames, src, false);
                                }
                            },
                            None => {},
                        }
                    }
                },
                XmlToken::End { name } => {
                    if str_eq(name.as_str(), "navPoint") && frames.len() > 0 {
                        flush_frames(&mut entries, &mut frames, await_text);
                        let ghost flushed = frames_view(frames@);
                        frames.pop();
                        assert(frames_view(frames@) =~= flushed.drop_last());
                    }
                },
                _ => {},
            }
        }
        i = i + 1;
    }
    assert(toks@.subrange(0, toks@.len() as int) =~= toks@);
    entries
}

/// Reads the entries of a navigation document from its events.
pub fn nav_entries(toks: &Vec<XmlToken>) -> (r: Vec<TocEntry>)
    ensures
        entries_view(r@) == nav_state(toks@).entries,
{
    let mut entries: Vec<TocEntry> = Vec::new();
    let mut label = String::new();
    let mut target = String::new();
    let mut i: usize = 0;
    assert(entries_view(entries@) =~= seq![]);
    assert(toks@.subrange(0, 0) =~= seq![]);
    while i < toks.len()
        invariant
            i <= toks@.len(),
            (NavState { entries: entries_view(entries@), label: label@, target: target@ })
                == nav_state(toks@.subrange(0, i as int)),
        decreases toks.len() - i,
    {
        let ghost pre = toks@.subrange(0, i + 1);
        assert(pre.drop_last() =~= toks@.subrange(0, i as int));
        match &toks[i] {
            XmlToken::Start { name, attrs } => {
                if str_eq(name.as_str(), "a") {
                    label = String::new();
                    target = match attr_value(attrs, "href") {
                        Some(h) => h,
                        None => String::new(),
                    };
                }
            },
            XmlToken::Text { text } => {
                label.append(text.as_str());
            },
            XmlToken::End { name } => {
                if str_eq(name.as_str(), "a") {
                    close_entry(&mut entries, &label, &target);
                    label = String::new();
                    target = String::new();
                }
            },
            _ => {},
        }
        i = i + 1;
    }
    assert(toks@.subrange(0, toks@.len() as int) =~= toks@);
    entries
}

/// The resource of the item with id `id`, if the manifest has one.
pub open spec fn href_for(m: Seq<ItemView>, id: Option<Seq<char>>) -> Option<Seq<char>> {
    match id {
        Some(i) => if find_id(m, i) >= 0 {
            Some(m[find_id(m, i)].href)
        } else {
            None
        },
        None => None,
    }
}

/// The table of contents' resource: the item the spine's `toc` names, else
/// the navigation document.
pub open spec fn toc_href_of(st: PkgState) -> Option<Seq<char>> {
    if href_for(st.manifest, st.toc_id) is Some {
        href_for(st.manifest, st.toc_id)
    } else {
        href_for(st.manifest, st.nav_id)
    }
}

/// The entries of the table of contents `doc`, stored at `href`: legacy
/// format when `href` ends in `.ncx`, modern format otherwise.
pub open spec fn toc_entries_of(doc: Seq<u8>, href: Seq<char>) -> Result<Seq<EntryView>, LoadError> {
    let toks = xml_tokens_of(doc);
    if has_fault(toks) {
        Err(LoadError::MalformedToc)
    } else if ends_with(href, ".ncx"@) {
        Ok(ncx_state(toks).entries)
    } else {
        Ok(nav_state(toks).entries)
    }
}

/// The table of contents of `archive`, or why it cannot be had.
pub open spec fn toc_of(archive: Seq<u8>) -> Result<Seq<EntryView>, LoadError> {
    match loaded_package_of(archive) {
        Err(e) => Err(e),
        Ok(st) => match toc_href_of(st) {
            None => Err(LoadError::TocNotFound),
            Some(h) => match zip_entry_of(archive, h) {
                Err(_) => Err(LoadError::ArchiveError),
                Ok(doc) => toc_entries_of(doc, h),
            },
        },
    }
}

/// Looks up the resource of the item with id `id`.
fn item_href(m: &Vec<ManifestItem>, id: &Option<String>) -> (r: Option<String>)
    ensures
        crate::markup::opt_view(r) == href_for(items_view(m@), crate::markup::opt_view(*id)),
{
    match id {
        None => None,
        Some(i) => match find_item(m, i.as_str()) {
            Some(j) => Some(m[j].href.clone()),
            None => None,
        },
    }
}

/// Parses a table of contents stored at `href`.
pub fn parse_toc(doc: &[u8], href: &str) -> (r: Result<Vec<TocEntry>, LoadError>)
    ensures
        match r {
            Ok(v) => toc_entries_of(doc@, href@) == Ok::<Seq<EntryView>, LoadError>(
                entries_view(v@),
            ),
            Err(e) => toc_entries_of(doc@, href@) == Err::<Seq<EntryView>, LoadError>(e),
        },
{
    let toks = xml_tokens(doc);
    if tokens_fault(&toks) {
        Err(LoadError::MalformedToc)
    } else if str_ends_with(href, ".ncx") {
        Ok(ncx_entries(&toks))
    } else {
        Ok(nav_entries(&toks))
    }
}

/// Reads the table of contents of the book held in `archive`: its entries
/// in document order, duplicates kept.
pub fn parse_epub_toc(archive: &[u8]) -> (r: Result<Vec<TocEntry>, LoadError>)
    ensures
        match r {
            Ok(v) => toc_of(archive@) == Ok::<Seq<EntryView>, LoadError>(entries_view(v@)),
            Err(e) => toc_of(archive@) == Err::<Seq<EntryView>, LoadError>(e),
        },
{
    let model = load_package(archive)?;
    let mut href = item_href(&model.manifest, &model.toc_id);
    if href.is_none() {
        href = item_href(&model.manifest, &model.nav_id);
    }
    match href {
        None => Err(LoadError::TocNotFound),
        Some(h) => match read_entry(archive, h.as_str()) {
            Err(_) => Err(LoadError::ArchiveError),
            Ok(doc) => parse_toc(doc.as_slice(), h.as_str()),
        },
    }
}

/// Whether the event opens an element named `n`.
pub open spec fn opens(t: XmlToken, n: Seq<char>) -> bool {
    t is Start && t->Start_name@ == n
}

/// Whether the event closes an element named `n`.
pub open spec fn closes(t: XmlToken, n: Seq<char>) -> bool {
    t is End && t->End_name@ == n
}

/// Whether no event opens or closes a navigation point.
pub open spec fn quiet(toks: Seq<XmlToken>) -> bool {
    forall|i: int| 0 <= i < toks.len() ==> !opens(#[trigger] toks[i], "navPoint"@) && !closes(toks[i], "navPoint"@)
}

/// Whether the events are quiet and open neither a `text` nor a `content`
/// element: white space, end tags, `navLabel` and the like.
pub open spec fn plain(toks: Seq<XmlToken>) -> bool {
    &&& quiet(toks)
    &&& forall|i: int| 0 <= i < toks.len() ==> !opens(#[trigger] toks[i], "text"@) && !opens(toks[i], "content"@)
}

/// A flat navigation point as it stands in a document: plain events before
/// it, its opening tag, plain events, the opening of its `text` element and
/// the label's text, plain events, the opening of its `content` element,
/// plain events, its closing tag.
pub struct NcxPoint {
    pub before: Seq<XmlToken>,
    pub open: XmlToken,
    pub lead: Seq<XmlToken>,
    pub text_open: XmlToken,
    pub label: XmlToken,
    pub mid: Seq<XmlToken>,
    pub content: XmlToken,
    pub trail: Seq<XmlToken>,
    pub close: XmlToken,
}

/// Whether `p` is such a point, with a non-empty label and target.
pub open spec fn point_ok(p: NcxPoint) -> bool {
    &&& plain(p.before) && plain(p.lead) && plain(p.mid) && plain(p.trail)
    &&& opens(p.open, "navPoint"@)
    &&& opens(p.text_open, "text"@)
    &&& p.label is Text && p.label->text@.len() > 0
    &&& opens(p.content, "content"@)
    &&& attr_of(p.content->Start_attrs@, "src"@) is Some
    &&& attr_of(p.content->Start_attrs@, "src"@)->Some_0.len() > 0
    &&& closes(p.close, "navPoint"@)
}

/// The events of a point.
pub open spec fn point_events(p: NcxPoint) -> Seq<XmlToken> {
    p.before + seq![p.open] + p.lead + seq![p.text_open, p.label] + p.mid + seq![p.content] + p.trail
        + seq![p.close]
}

/// The events of points one after the other.
pub open spec fn points_events(ps: Seq<NcxPoint>) -> Seq<XmlToken>
    decreases ps.len(),
{
    if ps.len() == 0 {
        seq![]
    } else {
        points_events(ps.drop_last()) + point_events(ps.last())
    }
}

/// The entry a point gives: its trimmed label and its target.
pub open spec fn point_entry(p: NcxPoint) -> EntryView {
    (trimmed(p.label->text@), attr_of(p.content->Start_attrs@, "src"@)->Some_0)
}

/// The names the legacy reader tells apart differ.
proof fn lemma_ncx_names_differ()
    ensures
        "navPoint"@ != "text"@,
        "navPoint"@ != "content"@,
        "text"@ != "content"@,
{
    reveal_strlit("navPoint");
    reveal_strlit("text");
    reveal_strlit("content");
    assert("navPoint"@.len() != "text"@.len());
    assert("navPoint"@.len() != "content"@.len());
    assert("text"@.len() != "content"@.len());
}

/// Reading `a` then `b` is reading `a + b`.
proof fn lemma_ncx_run_append(st: NcxState, a: Seq<XmlToken>, b: Seq<XmlToken>)
    ensures
        ncx_run(st, a + b) == ncx_run(ncx_run(st, a), b),
    decreases b.len(),
{
    if b.len() == 0 {
        assert(a + b =~= a);
    } else {
        assert((a + b).drop_last() =~= a + b.drop_last());
        assert((a + b).last() == b.last());
        lemma_ncx_run_append(st, a, b.drop_last());
    }
}

/// With no point open, quiet events add no entry and open no point; the
/// reader waits for no label unless the last event opens a `text` element.
proof fn lemma_quiet(st: NcxState, toks: Seq<XmlToken>)
    requires
        st.frames.len() == 0,
        quiet(toks),
    ensures
        ncx_run(st, toks).entries == st.entries,
        ncx_run(st, toks).frames.len() == 0,
        toks.len() == 0 ==> ncx_run(st, toks) == st,
        toks.len() > 0 && !opens(toks.last(), "text"@) ==> !ncx_run(st, toks).await_text,
    decreases toks.len(),
{
    if toks.len() > 0 {
        let pre = toks.drop_last();
        assert forall|i: int| 0 <= i < pre.len() implies !opens(#[trigger] pre[i], "navPoint"@) && !closes(pre[i], "navPoint"@) by {
            assert(pre[i] == toks[i]);
        }
        lemma_quiet(st, pre);
        assert(toks.last() == toks[toks.len() - 1]);
    }
}

/// Plain events change nothing while no label is awaited.
proof fn lemma_plain(st: NcxState, toks: Seq<XmlToken>)
    requires
        !st.await_text,
        plain(toks),
    ensures
        ncx_run(st, toks) == st,
    decreases toks.len(),
{
    if toks.len() > 0 {
        let pre = toks.drop_last();
        assert forall|i: int| 0 <= i < pre.len() implies !opens(#[trigger] pre[i], "navPoint"@) && !closes(pre[i], "navPoint"@) by {
            assert(pre[i] == toks[i]);
        }
        assert forall|i: int| 0 <= i < pre.len() implies !opens(#[trigger] pre[i], "text"@) && !opens(pre[i], "content"@) by {
            assert(pre[i] == toks[i]);
        }
        lemma_plain(st, pre);
        assert(toks.last() == toks[toks.len() - 1]);
    }
}

/// One flat point, read with no point open, adds its entry.
proof fn lemma_point(st: NcxState, p: NcxPoint)
    requires
        st.frames.len() == 0,
        !st.await_text,
        point_ok(p),
    ensures
        ncx_run(st, point_events(p)) == (NcxState { entries: st.entries.push(point_entry(p)), ..st }),
{
    lemma_ncx_names_differ();
    let empty = Frame { label: seq![], target: seq![], done: false };
    let l = p.label->text@;
    let src = attr_of(p.content->Start_attrs@, "src"@)->Some_0;
    lemma_plain(st, p.before);
    let s1 = ncx_run(st, p.before + seq![p.open]);
    lemma_ncx_run_append(st, p.before, seq![p.open]);
    assert(seq![p.open].drop_last() =~= Seq::<XmlToken>::empty());
    assert(ncx_run(st, p.before) == st);
    assert(seq![p.open].last() == p.open);
    assert(ncx_run(st, seq![p.open]) == ncx_step(ncx_run(st, Seq::<XmlToken>::empty()), p.open));
    assert(flush_top(st) == st);
    assert(s1.frames =~= seq![empty]);
    assert(s1.entries == st.entries && !s1.await_text);
    let e2 = p.before + seq![p.open] + p.lead;
    lemma_ncx_run_append(st, p.before + seq![p.open], p.lead);
    lemma_plain(s1, p.lead);
    let e3 = e2 + seq![p.text_open, p.label];
    lemma_ncx_run_append(st, e2, seq![p.text_open, p.label]);
    assert(seq![p.text_open, p.label].drop_last() =~= seq![p.text_open]);
    assert(seq![p.text_open].drop_last() =~= Seq::<XmlToken>::empty());
    assert(ncx_run(st, e2) == s1);
    let two = seq![p.text_open, p.label];
    assert(two.last() == p.label);
    assert(two.drop_last().last() == p.text_open);
    let s2a = ncx_step(s1, p.text_open);
    assert(s2a == NcxState { await_text: true, ..s1 });
    assert(seq![p.text_open].drop_last() =~= Seq::<XmlToken>::empty());
    assert(seq![p.text_open].last() == p.text_open);
    assert(ncx_run(s1, seq![p.text_open]) == ncx_step(ncx_run(s1, Seq::<XmlToken>::empty()), p.text_open));
    assert(two.drop_last() =~= seq![p.text_open]);
    assert(ncx_run(s1, seq![p.text_open]) == s2a);
    assert(ncx_run(s1, two) == ncx_step(s2a, p.label));
    let s3 = ncx_run(st, e3);
    assert(s3.frames =~= seq![Frame { label: l, ..empty }]);
    assert(s3.entries == st.entries && !s3.await_text);
    let e4 = e3 + p.mid;
    lemma_ncx_run_append(st, e3, p.mid);
    lemma_plain(s3, p.mid);
    let e5 = e4 + seq![p.content];
    lemma_ncx_run_append(st, e4, seq![p.content]);
    assert(ncx_run(st, e4) == s3);
    assert(seq![p.content].drop_last() =~= Seq::<XmlToken>::empty());
    assert(seq![p.content].last() == p.content);
    assert(ncx_run(s3, seq![p.content]) == ncx_step(ncx_run(s3, Seq::<XmlToken>::empty()), p.content));
    let s5 = ncx_run(st, e5);
    assert(s5.frames =~= seq![Frame { label: l, target: src, done: false }]);
    assert(s5.entries == st.entries && !s5.await_text);
    let e6 = e5 + p.trail;
    lemma_ncx_run_append(st, e5, p.trail);
    lemma_plain(s5, p.trail);
    lemma_ncx_run_append(st, e6, seq![p.close]);
    assert(e6 + seq![p.close] =~= point_events(p));
    assert(ncx_run(st, e6) == s5);
    assert(seq![p.close].drop_last() =~= Seq::<XmlToken>::empty());
    assert(seq![p.close].last() == p.close);
    assert(ncx_run(s5, seq![p.close]) == ncx_step(ncx_run(s5, Seq::<XmlToken>::empty()), p.close));
    let fl = flush_top(s5);
    assert(fl.entries == st.entries.push(point_entry(p)));
    assert(fl.frames.drop_last() =~= seq![]);
    assert(st.frames =~= seq![]);
}

/// Flat points, read with no point open, add their entries in order.
proof fn lemma_points(st: NcxState, ps: Seq<NcxPoint>)
    requires
        st.frames.len() == 0,
        !st.await_text,
        forall|k: int| 0 <= k < ps.len() ==> point_ok(#[trigger] ps[k]),
    ensures
        ncx_run(st, points_events(ps)) == (NcxState {
            entries: st.entries + ps.map_values(|p: NcxPoint| point_entry(p)),
            ..st
        }),
    decreases ps.len(),
{
    if ps.len() == 0 {
        assert(st.entries + ps.map_values(|p: NcxPoint| point_entry(p)) =~= st.entries);
    } else {
        let pre = ps.drop_last();
        assert forall|k: int| 0 <= k < pre.len() implies point_ok(#[trigger] pre[k]) by {
            assert(pre[k] == ps[k]);
        }
        lemma_points(st, pre);
        lemma_ncx_run_append(st, points_events(pre), point_events(ps.last()));
        let mid = ncx_run(st, points_events(pre));
        assert(point_ok(ps[ps.len() - 1]));
        lemma_point(mid, ps.last());
        assert(st.entries + ps.map_values(|p: NcxPoint| point_entry(p)) =~= (st.entries
            + pre.map_values(|p: NcxPoint| point_entry(p))).push(point_entry(ps.last())));
    }
}

/// A legacy table of contents whose navigation points are flat, each with
/// a non-empty label and target, gives one entry per point, in document
/// order: its trimmed label and its target. Before the points may stand any
/// events that open or close no point (the document's head and title)
/// unless the last opens a `text` element; after them, any such events.
pub proof fn lemma_ncx_round_trip(head: Seq<XmlToken>, ps: Seq<NcxPoint>, tail: Seq<XmlToken>)
    requires
        quiet(head),
        head.len() == 0 || !opens(head.last(), "text"@),
        forall|k: int| 0 <= k < ps.len() ==> point_ok(#[trigger] ps[k]),
        quiet(tail),
    ensures
        ncx_state(head + points_events(ps) + tail).entries == ps.map_values(|p: NcxPoint| point_entry(p)),
        ncx_state(head + points_events(ps) + tail).entries.len() == ps.len(),
{
    lemma_quiet(ncx_start(), head);
    let s0 = ncx_run(ncx_start(), head);
    lemma_ncx_run_append(ncx_start(), head, points_events(ps));
    lemma_points(s0, ps);
    let s1 = ncx_run(ncx_start(), head + points_events(ps));
    lemma_ncx_run_append(ncx_start(), head + points_events(ps), tail);
    lemma_quiet(s1, tail);
    assert(seq![] + ps.map_values(|p: NcxPoint| point_entry(p)) =~= ps.map_values(|p: NcxPoint| point_entry(p)));
}

} // verus!
