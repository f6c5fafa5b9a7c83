use vstd::prelude::*;

use crate::index::Index;
use crate::node::{make_node, node_view, opt_string_view, strings_view, EntryMeta, FileNode, NodeView};

verus! {

/// What visiting one path found: its final component, its metadata and, for a
/// directory, its listing as pairs of child id and child path in enumeration
/// order (empty where the directory could not be enumerated).
pub struct Entry<P> {
    pub file_name: Option<String>,
    pub meta: EntryMeta,
    pub children: Vec<(String, P)>,
}

/// Why a scan failed.
#[derive(Clone, Debug, PartialEq, Eq)]
pub enum ScanError {
    /// The root path does not exist.
    NotFound,
    /// The root's metadata could not be read; the text is the system's message.
    Metadata(String),
}

impl ScanError {
    /// The message shown to a caller.
    pub fn message(&self) -> (r: String)
        ensures
            match self {
                ScanError::NotFound => r@ == not_found_text(),
                ScanError::Metadata(m) => r@ == m@,
            },
    {
        match self {
            ScanError::NotFound => {
                proof {
                    reveal_strlit("Path not found");
                }
                "Path not found".to_owned()
            },
            ScanError::Metadata(m) => m.clone(),
        }
    }
}

pub open spec fn not_found_text() -> Seq<char> {
    seq!['P', 'a', 't', 'h', ' ', 'n', 'o', 't', ' ', 'f', 'o', 'u', 'n', 'd']
}

/// A directory whose children are being visited: its finished node and the
/// children not yet handed out.
struct Frame<P> {
    node: FileNode,
    rest: Vec<(String, P)>,
}

/// The model of a frame.
pub type FrameView<P> = (NodeView, Seq<(String, P)>);

/// The model of a walk.
pub struct WalkState<P> {
    /// Nodes recorded so far, by id.
    pub index: Map<Seq<char>, NodeView>,
    /// Open directories, outermost first.
    pub frames: Seq<FrameView<P>>,
    /// The entry to visit next, if any.
    pub target: Option<(String, P)>,
    /// The id of the root.
    pub root: Seq<char>,
}

/// The ids of a listing, in order.
pub open spec fn listing_ids<P>(children: Seq<(String, P)>) -> Seq<Seq<char>> {
    children.map_values(|c: (String, P)| c.0@)
}

/// The children recorded for an entry: its listing if it is a directory.
pub open spec fn recorded_children<P>(is_dir: bool, children: Seq<(String, P)>) -> Seq<Seq<char>> {
    if is_dir {
        listing_ids(children)
    } else {
        Seq::empty()
    }
}

/// The node recorded for a visited entry.
pub open spec fn entry_node<P>(id: Seq<char>, e: Entry<P>) -> NodeView {
    node_view(id, opt_string_view(e.file_name), e.meta, recorded_children(e.meta.is_dir, e.children@))
}

/// Closes finished directories from the innermost outwards, recording their
/// nodes, then hands out the next child of the innermost open one.
pub open spec fn advance<P>(index: Map<Seq<char>, NodeView>, frames: Seq<FrameView<P>>) -> (
    Map<Seq<char>, NodeView>,
    Seq<FrameView<P>>,
    Option<(String, P)>,
)
    decreases frames.len(),
{
    if frames.len() == 0 {
        (index, frames, None)
    } else {
        let top = frames.last();
        if top.1.len() == 0 {
            advance(index.insert(top.0.id, top.0), frames.drop_last())
        } else {
            (index, frames.drop_last().push((top.0, top.1.drop_first())), Some(top.1[0]))
        }
    }
}

/// The models of the nodes of an index.
pub open spec fn nodes_view(m: Map<Seq<char>, FileNode>) -> Map<Seq<char>, NodeView> {
    m.map_values(|n: FileNode| n@)
}

/// The walk after the outcome of visiting its target, or the error that ends
/// it: a failure to visit the root ends the scan, a failure below the root
/// only skips that entry, a directory with children is opened, and any other
/// entry is recorded.
pub open spec fn step<P>(s: WalkState<P>, outcome: Result<Entry<P>, String>) -> Result<
    WalkState<P>,
    ScanError,
> {
    match s.target {
        None => Ok(s),
        Some(t) => match outcome {
            Err(msg) => if s.frames.len() == 0 {
                Err(ScanError::Metadata(msg))
            } else {
                let a = advance(s.index, s.frames);
                Ok(WalkState { index: a.0, frames: a.1, target: a.2, root: s.root })
            },
            Ok(e) => {
                let node = entry_node(t.0@, e);
                if e.meta.is_dir && e.children@.len() > 0 {
                    Ok(
                        WalkState {
                            index: s.index,
                            frames: s.frames.push((node, e.children@.drop_first())),
                            target: Some(e.children@[0]),
                            root: s.root,
                        },
                    )
                } else {
                    let a = advance(s.index.insert(t.0@, node), s.frames);
                    Ok(WalkState { index: a.0, frames: a.1, target: a.2, root: s.root })
                }
            },
        },
    }
}

/// Every node is stored under its own id.
pub open spec fn keyed_by_id(index: Map<Seq<char>, NodeView>) -> bool {
    forall|k: Seq<char>| #[trigger] index.contains_key(k) ==> index[k].id == k
}

proof fn lemma_advance<P>(index: Map<Seq<char>, NodeView>, frames: Seq<FrameView<P>>)
    ensures
        ({
            let a = advance(index, frames);
            &&& keyed_by_id(index) ==> keyed_by_id(a.0)
            &&& a.1.len() <= frames.len()
            &&& forall|j: int| 0 <= j < a.1.len() ==> #[trigger] a.1[j].0 == frames[j].0
            &&& (a.2 is None <==> a.1.len() == 0)
            &&& a.1.len() == 0 && frames.len() > 0 ==> a.0.contains_key(frames[0].0.id)
            &&& frames.len() == 0 ==> a.0 == index
        }),
    decreases frames.len(),
{
    if frames.len() > 0 {
        let top = frames.last();
        if top.1.len() == 0 {
            let i2 = index.insert(top.0.id, top.0);
            lemma_advance(i2, frames.drop_last());
            if frames.len() == 1 {
                assert(i2.contains_key(frames[0].0.id));
            }
        }
    }
}

proof fn lemma_keyed(index: Index)
    requires
        index.wf(),
    ensures
        keyed_by_id(nodes_view(index@)),
{
}

/// A depth-first walk over a tree of entries that are identified by their
/// ids and reached through paths of type `P`. A directory's node is recorded
/// after the nodes of its descendants.
pub struct Walk<P> {
    index: Index,
    frames: Vec<Frame<P>>,
    target: Option<(String, P)>,
    root: Ghost<Seq<char>>,
}

spec fn frames_view<P>(frames: Seq<Frame<P>>) -> Seq<FrameView<P>> {
    frames.map_values(|f: Frame<P>| (f.node@, f.rest@))
}

impl<P> Walk<P> {
    /// The model of the walk.
    pub closed spec fn state(&self) -> WalkState<P> {
        WalkState {
            index: nodes_view(self.index@),
            frames: frames_view(self.frames@),
            target: self.target,
            root: self.root@,
        }
    }

    /// The walk's invariant: nodes are stored under their ids, the outermost
    /// open directory is the root, an open directory always has a child
    /// handed out, and a finished walk has recorded the root.
    pub closed spec fn wf(&self) -> bool {
        let s = self.state();
        &&& self.index.wf()
        &&& keyed_by_id(s.index)
        &&& s.frames.len() > 0 ==> s.frames[0].0.id == s.root && s.target is Some
        &&& s.frames.len() == 0 ==> match s.target {
            Some(t) => t.0@ == s.root,
            None => s.index.contains_key(s.root),
        }
    }

    /// Starts a scan at a root with the given id, reached through `root`;
    /// fails with `NotFound` where the root does not exist.
    pub fn start(root_id: String, root: P, exists: bool) -> (r: Result<Walk<P>, ScanError>)
        ensures
            !exists <==> r is Err,
            !exists ==> r == Err::<Walk<P>, ScanError>(ScanError::NotFound),
            match r {
                Ok(w) => w.wf() && w.state().root == root_id@ && w.state().index.dom().is_empty()
                    && w.state().frames.len() == 0 && w.state().target == Some((root_id, root)),
                Err(_) => true,
            },
    {
        if !exists {
            return Err(ScanError::NotFound);
        }
        let ghost root_view = root_id@;
        let w = Walk {
            index: Index::new(),
            frames: Vec::new(),
            target: Some((root_id, root)),
            root: Ghost(root_view),
        };
        proof {
            assert(frames_view(w.frames@) =~= Seq::<FrameView<P>>::empty());
        }
        Ok(w)
    }

    /// The path to visit next, or `None` once the walk is over.
    pub fn target(&self) -> (r: Option<&P>)
        ensures
            match self.state().target {
                Some(t) => r == Some(&t.1),
                None => r is None,
            },
    {
        match &self.target {
            Some(t) => Some(&t.1),
            None => None,
        }
    }
    /// Closes finished directories and hands out the next child.
    fn advance_walk(&mut self)
        requires
            old(self).index.wf(),
        ensures
            final(self).index.wf(),
            final(self).root == old(self).root,
            ({
                let a = advance(old(self).state().index, old(self).state().frames);
                &&& final(self).state().index == a.0
                &&& final(self).state().frames == a.1
                &&& final(self).state().target == a.2
            }),
    {
        let ghost goal = advance(old(self).state().index, old(self).state().frames);
        proof {
            assert(old(self).state().index == nodes_view(self.index@));
            assert(old(self).state().frames == frames_view(self.frames@));
        }
        loop
            invariant
                self.index.wf(),
                self.root == old(self).root,
                advance(nodes_view(self.index@), frames_view(self.frames@)) == goal,
                goal == advance(old(self).state().index, old(self).state().frames),
            decreases self.frames.len(),
        {
            if self.frames.len() == 0 {
                self.target = None;
                proof {
                    assert(frames_view(self.frames@) =~= Seq::<FrameView<P>>::empty());
                }
                return;
            }
            let ghost fv = frames_view(self.frames@);
            let ghost iv = nodes_view(self.index@);
            let mut top = self.frames.pop().unwrap();
            proof {
                assert(frames_view(self.frames@) =~= fv.drop_last());
                assert(fv.last() == (top.node@, top.rest@));
            }
            if top.rest.len() == 0 {
                let ghost n = top.node;
                self.index.record(top.node);
                proof {
                    assert(nodes_view(self.index@) =~= iv.insert(n.id@, n@));
                }
            } else {
                let next = top.rest.remove(0);
                self.frames.push(top);
                self.target = Some(next);
                proof {
                    assert(frames_view(self.frames@) =~= fv.drop_last().push(
                        (fv.last().0, fv.last().1.drop_first()),
                    ));
                }
                return;
            }
        }
    }

    /// Takes in the outcome of visiting the target: the entry found there,
    /// or the message of the failure to read it.
    pub fn absorb(&mut self, outcome: Result<Entry<P>, String>) -> (r: Result<(), ScanError>)
        requires
            old(self).wf(),
            old(self).state().target is Some,
        ensures
            match step(old(self).state(), outcome) {
                Ok(s) => r is Ok && final(self).state() == s && final(self).wf(),
                Err(e) => r is Err && r->Err_0 == e,
            },
    {
        let ghost s0 = self.state();
        let t = self.target.take();
        let (tid, tpath) = t.unwrap();
        proof {
            lemma_keyed(self.index);
        }
        match outcome {
            Err(msg) => {
                if self.frames.len() == 0 {
                    self.target = Some((tid, tpath));
                    return Err(ScanError::Metadata(msg));
                }
                self.advance_walk();
                proof {
                    lemma_advance(s0.index, s0.frames);
                }
                Ok(())
            },
            Ok(e) => {
                let ghost ev = e;
                let Entry { file_name, meta, children } = e;
                let mut ids: Vec<String> = Vec::new();
                if meta.is_dir {
                    let mut i: usize = 0;
                    while i < children.len()
                        invariant
                            i <= children@.len(),
                            strings_view(ids@) =~= listing_ids(children@).take(i as int),
                        decreases children@.len() - i,
                    {
                        let id = children[i].0.clone();
                        let ghost before = ids@;
                        ids.push(id);
                        proof {
                            assert(strings_view(ids@) =~= strings_view(before).push(children@[i as int].0@));
                            assert(listing_ids(children@).take(i + 1) =~= listing_ids(children@).take(
                                i as int,
                            ).push(children@[i as int].0@));
                        }
                        i += 1;
                    }
                }
                proof {
                    assert(strings_view(ids@) =~= recorded_children(meta.is_dir, children@));
                }
                let node = make_node(tid, file_name, &meta, ids);
                if meta.is_dir && children.len() > 0 {
                    let ghost fv = frames_view(self.frames@);
                    let mut rest = children;
                    let first = rest.remove(0);
                    self.frames.push(Frame { node, rest });
                    self.target = Some(first);
                    proof {
                        assert(frames_view(self.frames@) =~= fv.push((node@, ev.children@.drop_first())));
                    }
                } else {
                    let ghost nv = node@;
                    self.index.record(node);
                    proof {
                        assert(nodes_view(self.index@) =~= s0.index.insert(nv.id, nv));
                        lemma_keyed(self.index);
                    }
                    self.advance_walk();
                    proof {
                        lemma_advance(s0.index.insert(nv.id, nv), s0.frames);
                    }
                }
                Ok(())
            },
        }
    }

    /// The index of a finished walk; it holds the root.
    pub fn finish(self) -> (r: Index)
        requires
            self.wf(),
            self.state().target is None,
        ensures
            r.wf(),
            nodes_view(r@) == self.state().index,
            r@.contains_key(self.state().root),
    {
        self.index
    }
}

/// A finished walk has recorded the node of its root.
pub proof fn lemma_finished_walk_holds_root<P>(w: &Walk<P>)
    requires
        w.wf(),
        w.state().target is None,
    ensures
        w.state().index.contains_key(w.state().root),
{
}

/// Only a failure to visit the root ends a scan; a failure below the root
/// skips that entry and the walk goes on with the rest.
pub proof fn lemma_only_root_failure_ends_scan<P>(s: WalkState<P>, msg: String)
    requires
        s.target is Some,
    ensures
        step(s, Err(msg)) is Err <==> s.frames.len() == 0,
        s.frames.len() == 0 ==> step(s, Err(msg)) == Err::<WalkState<P>, ScanError>(
            ScanError::Metadata(msg),
        ),
        s.frames.len() > 0 ==> step(s, Err(msg))->Ok_0.index == advance(s.index, s.frames).0,
{
}

/// The node of a visited entry carries the entry's id, is a directory exactly
/// when its metadata says so, and lists a directory's children in
/// enumeration order.
pub proof fn lemma_entry_node_follows_entry<P>(id: Seq<char>, e: Entry<P>)
    ensures
        entry_node(id, e).id == id,
        entry_node(id, e).is_dir == e.meta.is_dir,
        e.meta.is_dir ==> entry_node(id, e).children == listing_ids(e.children@),
        !e.meta.is_dir ==> entry_node(id, e).children.len() == 0,
{
}

} // verus!
