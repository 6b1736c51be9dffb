//! The search for translation units below the source directory.
//!
//! The search reads no directory itself. It says which directory it wants
//! listed next, is handed the listing, and decides what to keep and where
//! to descend. Files are taken by their extension; hidden directories and
//! the directories of build products are never asked for.

use vstd::prelude::*;
use crate::builder::{
    classify_chars,
    is_skipped_dir,
    language_of,
    skips_dir_chars,
    source_views,
    SourceFile,
    SourceView,
};
use crate::paths::{join, join_of};
use crate::text::{from_chars, to_chars};

verus! {

/// What kind of thing a directory entry is.
#[derive(Debug, Clone, Copy, PartialEq, Eq, Structural)]
pub enum EntryKind {
    Dir,
    File,
    /// Neither a directory nor a regular file.
    Other,
}

/// One entry of a directory listing.
#[derive(Debug)]
pub struct DirEntry {
    pub name: String,
    pub kind: EntryKind,
}

/// The values of the entries of a listing.
pub open spec fn entry_views(v: Seq<DirEntry>) -> Seq<(Seq<char>, EntryKind)> {
    v.map_values(|e: DirEntry| (e.name@, e.kind))
}

/// A directory that is being walked: its path relative to the source
/// directory, its listing, and how many entries have been looked at.
pub struct FrameView {
    pub rel: Seq<char>,
    pub entries: Seq<(Seq<char>, EntryKind)>,
    pub next: nat,
}

/// The mathematical value of a search.
pub struct DiscoveryView {
    /// The source directory.
    pub root: Seq<char>,
    /// The directories being walked, the innermost last.
    pub frames: Seq<FrameView>,
    /// The directory whose listing is wanted, relative to the source
    /// directory; `None` once the search is over.
    pub wanted: Option<Seq<char>>,
    /// The translation units found so far.
    pub sources: Seq<SourceView>,
}

/// The path of the directory `rel` below `root`; the empty `rel` is `root`.
pub open spec fn dir_path(root: Seq<char>, rel: Seq<char>) -> Seq<char> {
    if rel.len() == 0 {
        root
    } else {
        join(root, rel)
    }
}

/// The entries of the innermost directory that are still to be looked at.
pub open spec fn entries_left(frames: Seq<FrameView>) -> nat {
    if frames.len() > 0 && frames.last().next < frames.last().entries.len() {
        (frames.last().entries.len() - frames.last().next) as nat
    } else {
        0
    }
}

impl DiscoveryView {
    /// A search that has seen nothing and wants the source directory listed.
    pub open spec fn begin(root: Seq<char>) -> DiscoveryView {
        DiscoveryView {
            root,
            frames: Seq::empty(),
            wanted: Some(Seq::empty()),
            sources: Seq::empty(),
        }
    }

    /// The search after it has walked on as far as it can without a new
    /// listing: it looks at the entries of the innermost directory in
    /// order. A file with the extension of a C or C++ source is kept. A
    /// directory that is not skipped becomes the wanted one, and the walk
    /// pauses. A directory with no entry left is done with, and the walk
    /// goes on in the one around it. With no directory left the search is
    /// over.
    pub open spec fn advance(self) -> DiscoveryView
        decreases self.frames.len(), entries_left(self.frames),
    {
        if self.frames.len() == 0 {
            DiscoveryView { wanted: None, ..self }
        } else {
            let top = self.frames.last();
            if top.next >= top.entries.len() {
                (DiscoveryView { frames: self.frames.drop_last(), ..self }).advance()
            } else {
                let name = top.entries[top.next as int].0;
                let kind = top.entries[top.next as int].1;
                let path = join(top.rel, name);
                let frames = self.frames.drop_last().push(
                    FrameView { next: top.next + 1, ..top },
                );
                let walked = DiscoveryView { frames, ..self };
                match kind {
                    EntryKind::Dir => if is_skipped_dir(name) {
                        walked.advance()
                    } else {
                        DiscoveryView { wanted: Some(path), ..walked }
                    },
                    EntryKind::File => match language_of(path) {
                        Some(language) => (DiscoveryView {
                            sources: self.sources.push(
                                SourceView {
                                    path: join(self.root, path),
                                    rel_path: path,
                                    language,
                                },
                            ),
                            ..walked
                        }).advance(),
                        None => walked.advance(),
                    },
                    EntryKind::Other => walked.advance(),
                }
            }
        }
    }

    /// The search after it is handed the listing of the wanted directory.
    /// A search that is over takes no notice of it.
    pub open spec fn supply(self, entries: Seq<(Seq<char>, EntryKind)>) -> DiscoveryView {
        match self.wanted {
            Some(rel) => (DiscoveryView {
                frames: self.frames.push(FrameView { rel, entries, next: 0 }),
                wanted: None,
                ..self
            }).advance(),
            None => self,
        }
    }

    /// Whether every source found is a translation unit by its extension
    /// and lies below the source directory.
    pub open spec fn sources_are_units(self) -> bool {
        forall|i: int|
            0 <= i < self.sources.len() ==> {
                &&& language_of((#[trigger] self.sources[i]).rel_path) == Some(
                    self.sources[i].language,
                )
                &&& self.sources[i].path == join(self.root, self.sources[i].rel_path)
            }
    }

    /// Whether the wanted directory, if it is not the source directory
    /// itself, is an entry of the innermost directory that is a directory
    /// and is not skipped.
    pub open spec fn wanted_is_entered(self) -> bool {
        self.wanted is Some && self.frames.len() > 0 ==> {
            let top = self.frames.last();
            &&& 0 < top.next <= top.entries.len()
            &&& top.entries[top.next - 1].1 == EntryKind::Dir
            &&& !is_skipped_dir(top.entries[top.next - 1].0)
            &&& self.wanted->0 == join(top.rel, top.entries[top.next - 1].0)
        }
    }

    /// Whether the search is well formed.
    pub open spec fn wf(self) -> bool {
        &&& self.sources_are_units()
        &&& self.wanted_is_entered()
        &&& self.wanted is None ==> self.frames.len() == 0
    }
}

/// Walking on keeps what was found, finds only translation units, and
/// pauses only at a directory that is not skipped.
pub proof fn lemma_advance(d: DiscoveryView)
    requires
        d.sources_are_units(),
    ensures
        d.advance().wf(),
        d.advance().root == d.root,
        d.sources.len() <= d.advance().sources.len(),
        forall|i: int| 0 <= i < d.sources.len() ==> d.advance().sources[i] == d.sources[i],
    decreases d.frames.len(), entries_left(d.frames),
{
    if d.frames.len() > 0 {
        let top = d.frames.last();
        if top.next >= top.entries.len() {
            lemma_advance(DiscoveryView { frames: d.frames.drop_last(), ..d });
        } else {
            let name = top.entries[top.next as int].0;
            let kind = top.entries[top.next as int].1;
            let path = join(top.rel, name);
            let frames = d.frames.drop_last().push(FrameView { next: top.next + 1, ..top });
            let walked = DiscoveryView { frames, ..d };
            assert(frames.last() == FrameView { next: top.next + 1, ..top });
            match kind {
                EntryKind::Dir => {
                    if is_skipped_dir(name) {
                        lemma_advance(walked);
                    }
                },
                EntryKind::File => {
                    match language_of(path) {
                        Some(language) => {
                            let found = SourceView {
                                path: join(d.root, path),
                                rel_path: path,
                                language,
                            };
                            let kept = DiscoveryView { sources: d.sources.push(found), ..walked };
                            assert(kept.sources_are_units());
                            lemma_advance(kept);
                            assert forall|i: int| 0 <= i < d.sources.len() implies d.advance().sources[i]
                                == d.sources[i] by {
                                assert(kept.sources[i] == d.sources[i]);
                            }
                        },
                        None => {
                            lemma_advance(walked);
                        },
                    }
                },
                EntryKind::Other => {
                    lemma_advance(walked);
                },
            }
        }
    }
}

/// A listing keeps a search well formed: whatever it is handed, the search
/// finds only files with the extension of a C or C++ source, and asks only
/// for directories that are not skipped.
pub proof fn lemma_supply(d: DiscoveryView, entries: Seq<(Seq<char>, EntryKind)>)
    requires
        d.wf(),
    ensures
        d.supply(entries).wf(),
        d.supply(entries).root == d.root,
        d.sources.len() <= d.supply(entries).sources.len(),
        forall|i: int| 0 <= i < d.sources.len() ==> d.supply(entries).sources[i] == d.sources[i],
{
    if let Some(rel) = d.wanted {
        lemma_advance(
            DiscoveryView {
                frames: d.frames.push(FrameView { rel, entries, next: 0 }),
                wanted: None,
                ..d
            },
        );
    }
}

/// A directory that is being walked.
#[derive(Debug)]
struct Frame {
    rel: Vec<char>,
    entries: Vec<DirEntry>,
    next: usize,
}

impl View for Frame {
    type V = FrameView;

    closed spec fn view(&self) -> FrameView {
        FrameView { rel: self.rel@, entries: entry_views(self.entries@), next: self.next as nat }
    }
}

/// A search for translation units.
#[derive(Debug)]
pub struct Discovery {
    root: Vec<char>,
    frames: Vec<Frame>,
    wanted: Option<Vec<char>>,
    sources: Vec<SourceFile>,
}

impl View for Discovery {
    type V = DiscoveryView;

    closed spec fn view(&self) -> DiscoveryView {
        DiscoveryView {
            root: self.root@,
            frames: self.frames@.map_values(|f: Frame| f@),
            wanted: match self.wanted {
                Some(rel) => Some(rel@),
                None => None,
            },
            sources: source_views(self.sources@),
        }
    }
}

impl Discovery {
    /// Begins a search below `source_dir`.
    pub fn new(source_dir: &str) -> (r: Discovery)
        ensures
            r@ == DiscoveryView::begin(source_dir@),
            r@.wf(),
    {
        let r = Discovery {
            root: to_chars(source_dir),
            frames: Vec::new(),
            wanted: Some(Vec::new()),
            sources: Vec::new(),
        };
        assert(r@.frames == Seq::<FrameView>::empty());
        assert(r@.sources == Seq::<SourceView>::empty());
        r
    }

    /// Whether the search is over.
    pub fn is_done(&self) -> (r: bool)
        ensures
            r == (self@.wanted is None),
    {
        self.wanted.is_none()
    }

    /// The directory whose listing the search wants next; `None` once the
    /// search is over.
    pub fn wanted(&self) -> (r: Option<String>)
        ensures
            match self@.wanted {
                Some(rel) => r matches Some(dir) && dir@ == dir_path(self@.root, rel),
                None => r is None,
            },
    {
        match &self.wanted {
            Some(rel) => {
                if rel.len() == 0 {
                    Some(from_chars(&self.root))
                } else {
                    Some(from_chars(&join_of(&self.root, rel)))
                }
            },
            None => None,
        }
    }

    /// Hands the search the listing of the directory it wants.
    pub fn supply(&mut self, entries: Vec<DirEntry>)
        ensures
            final(self)@ == old(self)@.supply(entry_views(entries@)),
            old(self)@.wf() ==> final(self)@.wf(),
    {
        proof {
            if self@.wf() {
                lemma_supply(self@, entry_views(entries@));
            }
        }
        let rel = match self.wanted.take() {
            Some(rel) => rel,
            None => {
                assert(self@ == old(self)@);
                return ;
            },
        };
        let ghost before = self.frames@;
        let frame = Frame { rel, entries, next: 0 };
        self.frames.push(frame);
        assert(before.push(frame).map_values(|f: Frame| f@) == before.map_values(|f: Frame| f@).push(
            frame@,
        ));
        self.advance();
    }

    /// Walks on until a directory is wanted or the search is over.
    fn advance(&mut self)
        requires
            old(self).wanted is None,
        ensures
            final(self)@ == old(self)@.advance(),
    {
        loop
            invariant
                self.wanted is None,
                self@.advance() == old(self)@.advance(),
            decreases self.frames.len(), entries_left(self@.frames),
        {
            let ghost here = self@;
            let ghost frames_before = self.frames@;
            let mut top = match self.frames.pop() {
                Some(top) => top,
                None => {
                    assert(self@.frames == Seq::<FrameView>::empty());
                    assert(self@ == here);
                    assert(here.advance() == here);
                    return ;
                },
            };
            proof {
                assert(frames_before.map_values(|f: Frame| f@).drop_last()
                    == frames_before.drop_last().map_values(|f: Frame| f@));
                assert(here.frames.last() == top@);
                assert(self@.frames == here.frames.drop_last());
            }
            if top.next >= top.entries.len() {
                assert(self@ == DiscoveryView { frames: here.frames.drop_last(), ..here });
                continue ;
            }
            let entry = &top.entries[top.next];
            let name = to_chars(entry.name.as_str());
            let kind = entry.kind;
            proof {
                assert(top@.entries[top.next as int] == (name@, kind));
            }
            let path = join_of(&top.rel, &name);
            top.next = top.next + 1;
            let ghost rest = self.frames@;
            self.frames.push(top);
            proof {
                assert(rest.push(top).map_values(|f: Frame| f@) == rest.map_values(|f: Frame| f@).push(
                    top@,
                ));
            }
            let ghost walked = self@;
            match kind {
                EntryKind::Dir => {
                    if !skips_dir_chars(&name) {
                        self.wanted = Some(path);
                        return ;
                    }
                },
                EntryKind::File => {
                    match classify_chars(&path) {
                        Some(language) => {
                            let ghost found_before = self.sources@;
                            let found = SourceFile {
                                path: from_chars(&join_of(&self.root, &path)),
                                rel_path: from_chars(&path),
                                language,
                            };
                            self.sources.push(found);
                            proof {
                                assert(source_views(found_before.push(found)) == source_views(
                                    found_before,
                                ).push(found@));
                            }
                        },
                        None => {},
                    }
                },
                EntryKind::Other => {},
            }
        }
    }

    /// The translation units that were found, in the order in which the
    /// search met them.
    pub fn into_sources(self) -> (r: Vec<SourceFile>)
        ensures
            source_views(r@) == self@.sources,
    {
        self.sources
    }
}

// ---------------------------------------------------------------------------
// What a search finds in a tree
// ---------------------------------------------------------------------------

/// A file, something else, or a directory with its entries by name.
pub enum Node {
    File,
    Other,
    Dir(Seq<(Seq<char>, Node)>),
}

/// The kind of entry that a node is listed as.
pub open spec fn kind_of(node: Node) -> EntryKind {
    match node {
        Node::File => EntryKind::File,
        Node::Other => EntryKind::Other,
        Node::Dir(_) => EntryKind::Dir,
    }
}

/// The listing of a directory with the entries `children`.
pub open spec fn listing(children: Seq<(Seq<char>, Node)>) -> Seq<(Seq<char>, EntryKind)> {
    children.map_values(|c: (Seq<char>, Node)| (c.0, kind_of(c.1)))
}

/// The translation units at and below the entry `name` of the directory
/// `rel`: the entry itself if it is a file with the extension of a source,
/// the units of its entries if it is a directory that is not skipped.
pub open spec fn units_of(root: Seq<char>, rel: Seq<char>, name: Seq<char>, node: Node) -> Seq<
    SourceView,
>
    decreases node, 0nat,
{
    match node {
        Node::File => match language_of(join(rel, name)) {
            Some(language) => seq![
                SourceView {
                    path: join(root, join(rel, name)),
                    rel_path: join(rel, name),
                    language,
                },
            ],
            None => Seq::empty(),
        },
        Node::Other => Seq::empty(),
        Node::Dir(children) => if is_skipped_dir(name) {
            Seq::empty()
        } else {
            units_from(root, join(rel, name), children, 0)
        },
    }
}

/// The translation units at and below the entries of the directory `rel`
/// from entry `i` on, in the order of the entries, each directory's units
/// in the place of the directory.
pub open spec fn units_from(
    root: Seq<char>,
    rel: Seq<char>,
    children: Seq<(Seq<char>, Node)>,
    i: nat,
) -> Seq<SourceView>
    decreases children, children.len() - i,
{
    if i >= children.len() {
        Seq::empty()
    } else {
        units_of(root, rel, children[i as int].0, children[i as int].1) + units_from(
            root,
            rel,
            children,
            i + 1,
        )
    }
}

/// The entries of a directory node; none for any other node.
pub open spec fn children_of(node: Node) -> Seq<(Seq<char>, Node)> {
    match node {
        Node::Dir(children) => children,
        _ => Seq::empty(),
    }
}

/// Whether `trees` holds, for every directory being walked, the entries
/// that its listing was made from.
pub open spec fn frames_match(frames: Seq<FrameView>, trees: Seq<Seq<(Seq<char>, Node)>>) -> bool {
    &&& frames.len() == trees.len()
    &&& forall|k: int| 0 <= k < frames.len() ==> (#[trigger] frames[k]).entries == listing(trees[k])
}

/// The translation units that the directories being walked still hold: for
/// each of them those of the entries not yet looked at, the innermost
/// directory first.
pub open spec fn rest_units(
    root: Seq<char>,
    frames: Seq<FrameView>,
    trees: Seq<Seq<(Seq<char>, Node)>>,
) -> Seq<SourceView>
    decreases frames.len(),
{
    if frames.len() == 0 {
        Seq::empty()
    } else {
        units_from(root, frames.last().rel, trees.last(), frames.last().next) + rest_units(
            root,
            frames.drop_last(),
            trees.drop_last(),
        )
    }
}

/// Walking on finds the units in their order: it ends with every unit that
/// the directories being walked still held, or it pauses at a directory
/// that is not skipped, with every unit before that directory found and
/// the others still to come.
pub proof fn lemma_advance_finds(d: DiscoveryView, trees: Seq<Seq<(Seq<char>, Node)>>)
    requires
        frames_match(d.frames, trees),
    ensures
        d.advance().root == d.root,
        d.advance().frames.len() <= d.frames.len(),
        frames_match(d.advance().frames, trees.take(d.advance().frames.len() as int)),
        d.advance().wanted is None ==> d.advance().frames.len() == 0 && d.advance().sources
            == d.sources + rest_units(d.root, d.frames, trees),
        d.advance().wanted is Some ==> {
            let after = d.advance();
            let m = after.frames.len() as int;
            let top = after.frames.last();
            &&& m > 0
            &&& 0 < top.next <= trees[m - 1].len()
            &&& trees[m - 1][top.next - 1].1 is Dir
            &&& !is_skipped_dir(trees[m - 1][top.next - 1].0)
            &&& after.wanted->0 == join(top.rel, trees[m - 1][top.next - 1].0)
            &&& after.sources + units_from(
                d.root,
                after.wanted->0,
                children_of(trees[m - 1][top.next - 1].1),
                0,
            ) + rest_units(d.root, after.frames, trees.take(m)) == d.sources + rest_units(
                d.root,
                d.frames,
                trees,
            )
        },
    decreases d.frames.len(), entries_left(d.frames),
{
    let after = d.advance();
    let rest = rest_units(d.root, d.frames, trees);
    if d.frames.len() == 0 {
        assert(d.sources + rest == d.sources);
        assert(trees.take(0) == Seq::<Seq<(Seq<char>, Node)>>::empty());
    } else {
        let top = d.frames.last();
        let tree = trees.last();
        let outer = rest_units(d.root, d.frames.drop_last(), trees.drop_last());
        assert(top.entries == listing(tree));
        assert(frames_match(d.frames.drop_last(), trees.drop_last())) by {
            assert forall|k: int| 0 <= k < d.frames.drop_last().len() implies (
            #[trigger] d.frames.drop_last()[k]).entries == listing(trees.drop_last()[k]) by {
                assert(d.frames.drop_last()[k] == d.frames[k]);
            }
        }
        if top.next >= top.entries.len() {
            let popped = DiscoveryView { frames: d.frames.drop_last(), ..d };
            lemma_advance_finds(popped, trees.drop_last());
            let m = after.frames.len() as int;
            assert(trees.drop_last().take(m) == trees.take(m));
            assert(units_from(d.root, top.rel, tree, top.next) == Seq::<SourceView>::empty());
            assert(rest == outer);
            if after.wanted is Some {
                assert(trees.drop_last()[m - 1] == trees[m - 1]);
            }
        } else {
            let name = tree[top.next as int].0;
            let node = tree[top.next as int].1;
            assert(top.entries[top.next as int] == (name, kind_of(node)));
            let path = join(top.rel, name);
            let stepped = FrameView { next: top.next + 1, ..top };
            let frames = d.frames.drop_last().push(stepped);
            let walked = DiscoveryView { frames, ..d };
            assert(frames.last() == stepped);
            assert(frames.drop_last() == d.frames.drop_last());
            assert(frames_match(frames, trees)) by {
                assert forall|k: int| 0 <= k < frames.len() implies (#[trigger] frames[k]).entries
                    == listing(trees[k]) by {
                    if k < frames.len() - 1 {
                        assert(frames[k] == d.frames[k]);
                    }
                }
            }
            let here = units_of(d.root, top.rel, name, node);
            let later = units_from(d.root, top.rel, tree, top.next + 1);
            assert(units_from(d.root, top.rel, tree, top.next) == here + later);
            assert(rest == (here + later) + outer);
            assert(rest_units(d.root, frames, trees) == later + outer);
            assert(trees.take(trees.len() as int) == trees);
            match node {
                Node::Dir(children) => {
                    if is_skipped_dir(name) {
                        lemma_advance_finds(walked, trees);
                        assert(here == Seq::<SourceView>::empty());
                        assert((here + later) + outer == later + outer);
                    } else {
                        assert(after == DiscoveryView { wanted: Some(path), ..walked });
                        assert(here == units_from(d.root, path, children, 0));
                        assert(d.sources + here + (later + outer) == d.sources + ((here + later)
                            + outer));
                    }
                },
                Node::File => {
                    match language_of(path) {
                        Some(language) => {
                            let found = SourceView {
                                path: join(d.root, path),
                                rel_path: path,
                                language,
                            };
                            let kept = DiscoveryView { sources: d.sources.push(found), ..walked };
                            lemma_advance_finds(kept, trees);
                            assert(here == seq![found]);
                            assert(d.sources.push(found) + (later + outer) == d.sources + ((here
                                + later) + outer));
                        },
                        None => {
                            lemma_advance_finds(walked, trees);
                            assert(here == Seq::<SourceView>::empty());
                            assert((here + later) + outer == later + outer);
                        },
                    }
                },
                Node::Other => {
                    lemma_advance_finds(walked, trees);
                    assert(here == Seq::<SourceView>::empty());
                    assert((here + later) + outer == later + outer);
                },
            }
        }
    }
}

/// A search together with the tree that its listings come from.
pub struct Walk {
    pub search: DiscoveryView,
    /// The entries of the directories being walked, the innermost last.
    pub trees: Seq<Seq<(Seq<char>, Node)>>,
    /// The entries of the wanted directory.
    pub entering: Seq<(Seq<char>, Node)>,
}

impl Walk {
    /// The search for the units of the source directory `root` with the
    /// entries `tree`, before the first listing.
    pub open spec fn begin(root: Seq<char>, tree: Seq<(Seq<char>, Node)>) -> Walk {
        Walk { search: DiscoveryView::begin(root), trees: Seq::empty(), entering: tree }
    }

    /// Whether the search and the tree belong together.
    pub open spec fn consistent(self) -> bool {
        let d = self.search;
        &&& frames_match(d.frames, self.trees)
        &&& d.wanted is None ==> d.frames.len() == 0
        &&& d.wanted is Some && d.frames.len() == 0 ==> d.wanted->0 == Seq::<char>::empty()
        &&& d.wanted is Some && d.frames.len() > 0 ==> {
            let top = d.frames.last();
            let tree = self.trees.last();
            &&& 0 < top.next <= tree.len()
            &&& tree[top.next - 1].1 == Node::Dir(self.entering)
            &&& !is_skipped_dir(tree[top.next - 1].0)
            &&& d.wanted->0 == join(top.rel, tree[top.next - 1].0)
        }
    }

    /// Every unit of the walk: those found, those of the wanted directory,
    /// and those that the directories being walked still hold.
    pub open spec fn all_units(self) -> Seq<SourceView> {
        self.search.sources + (match self.search.wanted {
            Some(rel) => units_from(self.search.root, rel, self.entering, 0),
            None => Seq::empty(),
        }) + rest_units(self.search.root, self.search.frames, self.trees)
    }

    /// The walk after the search is handed the listing of the directory it
    /// wants.
    pub open spec fn supplied(self) -> Walk {
        let search = self.search.supply(listing(self.entering));
        let m = search.frames.len() as int;
        let trees = self.trees.push(self.entering).take(m);
        Walk {
            search,
            trees,
            entering: if search.wanted is Some && m > 0 {
                children_of(trees[m - 1][search.frames.last().next - 1].1)
            } else {
                Seq::empty()
            },
        }
    }

    /// The walk after `n` listings.
    pub open spec fn after(self, n: nat) -> Walk
        decreases n,
    {
        if n == 0 {
            self
        } else {
            self.after((n - 1) as nat).supplied()
        }
    }
}

/// A listing of the wanted directory keeps search and tree together, and
/// neither loses a unit nor makes one up.
pub proof fn lemma_supplied(w: Walk)
    requires
        w.consistent(),
    ensures
        w.supplied().consistent(),
        w.supplied().all_units() == w.all_units(),
        w.supplied().search.root == w.search.root,
{
    let d = w.search;
    match d.wanted {
        None => {
            assert(w.trees.push(w.entering).take(0) == Seq::<Seq<(Seq<char>, Node)>>::empty());
            assert(w.trees == Seq::<Seq<(Seq<char>, Node)>>::empty());
        },
        Some(rel) => {
            let frame = FrameView { rel, entries: listing(w.entering), next: 0 };
            let pushed = DiscoveryView { frames: d.frames.push(frame), wanted: None, ..d };
            let trees = w.trees.push(w.entering);
            assert(frames_match(pushed.frames, trees)) by {
                assert forall|k: int| 0 <= k < pushed.frames.len() implies (
                #[trigger] pushed.frames[k]).entries == listing(trees[k]) by {
                    if k < d.frames.len() {
                        assert(pushed.frames[k] == d.frames[k]);
                        assert(trees[k] == w.trees[k]);
                    }
                }
            }
            assert(pushed.frames.drop_last() == d.frames);
            assert(trees.drop_last() == w.trees);
            assert(rest_units(d.root, pushed.frames, trees) == units_from(
                d.root,
                rel,
                w.entering,
                0,
            ) + rest_units(d.root, d.frames, w.trees));
            lemma_advance_finds(pushed, trees);
            let after = pushed.advance();
            let m = after.frames.len() as int;
            assert(w.supplied().search == after);
            assert(d.sources + (units_from(d.root, rel, w.entering, 0) + rest_units(
                d.root,
                d.frames,
                w.trees,
            )) == w.all_units());
            if after.wanted is Some {
                let top = after.frames.last();
                assert(trees.take(m)[m - 1] == trees[m - 1]);
                assert(trees.take(m).last() == trees[m - 1]);
                let node = trees[m - 1][top.next - 1].1;
                assert(node == Node::Dir(children_of(node)));
            } else {
                assert(trees.take(0) == Seq::<Seq<(Seq<char>, Node)>>::empty());
                assert(after.sources + Seq::<SourceView>::empty() + Seq::<SourceView>::empty()
                    == after.sources);
            }
        },
    }
}

/// Handed the listing of every directory it asks for, a search finds the
/// translation units of the tree below the source directory, all of them
/// and nothing else, in the order of the listings: when the search is over,
/// after however many listings, what it has found is `units_from` of the
/// tree.
pub proof fn lemma_search_finds_the_units(root: Seq<char>, tree: Seq<(Seq<char>, Node)>, n: nat)
    ensures
        Walk::begin(root, tree).after(n).consistent(),
        Walk::begin(root, tree).after(n).search.root == root,
        Walk::begin(root, tree).after(n).all_units() == units_from(root, Seq::empty(), tree, 0),
        Walk::begin(root, tree).after(n).search.wanted is None ==> Walk::begin(root, tree).after(
            n,
        ).search.sources == units_from(root, Seq::empty(), tree, 0),
    decreases n,
{
    let start = Walk::begin(root, tree);
    let all = units_from(root, Seq::empty(), tree, 0);
    if n == 0 {
        assert(start.all_units() == all) by {
            assert(Seq::<SourceView>::empty() + all + Seq::<SourceView>::empty() == all);
        }
    } else {
        lemma_search_finds_the_units(root, tree, (n - 1) as nat);
        lemma_supplied(start.after((n - 1) as nat));
    }
    let w = start.after(n);
    if w.search.wanted is None {
        assert(w.search.sources + Seq::<SourceView>::empty() + Seq::<SourceView>::empty()
            == w.search.sources);
    }
}

} // verus!
